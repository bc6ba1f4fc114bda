//! Address spaces: a page table, the segments it maps, and the trampoline page.
use vstd::prelude::*;

use crate::address::{
    page_of_address, FrameNumber, PageNumber, PageRange, VirtualAddress, PAGE_NUMBER_LIMIT,
};
use crate::constant::PAGE_SIZE;
use crate::frame_allocator::{allocate_frame, StackFrameAllocator};
use crate::memory::PhysicalMemory;
use crate::elf::{
    elf_entry, elf_entry_point, elf_header_ok, elf_permission, elf_ph_count, elf_program_header_count,
    elf_program_header_offset, elf_program_header_size, elf_read_program_header, has_elf_magic,
    elf_program_header, load_headers, parse_elf, permission_of, program_headers_in_bounds,
    ProgramHeaderInfo,
};
use crate::page_table::{
    frames_kept, has_flag, leaf_key, PageTable, PageTableEntry, PTE_COW,
    PTE_FLAGS_LIMIT, PTE_R, PTE_U, PTE_V, PTE_W, PTE_X,
};
use crate::segment::{
    chunk, frame_budget, lemma_entry_fields, overwritten, MapType, PageSegment,
    MAP_PERMISSION_LIMIT, MAP_R, MAP_W, MAP_X,
};

verus! {

/// Why an image could not be loaded.
#[derive(Copy, Clone, PartialEq, Eq, Structural, Debug)]
pub enum ElfError {
    /// The image does not begin with the ELF magic.
    BadMagic,
    /// A header is unreadable, lies outside the image, or gives an impossible segment.
    Malformed,
    /// Two loadable segments share a page, or one reaches the trampoline.
    Overlap,
    /// The frame allocator ran out of frames.
    OutOfMemory,
}

/// The page of the trampoline: the top page of the address space.
pub const TRAMPOLINE_PAGE: u64 = 0x7ff_ffff;

/// The flags of the trampoline entry: readable, executable, valid.
pub const TRAMPOLINE_FLAGS: u64 = 11;

/// The entry that maps the trampoline page.
pub open spec fn trampoline_entry(frame: FrameNumber) -> PageTableEntry {
    PageTableEntry { bits: (frame.bits * PTE_FLAGS_LIMIT + TRAMPOLINE_FLAGS) as u64 }
}

/// Two page ranges share no page.
pub open spec fn ranges_disjoint(a: PageRange, b: PageRange) -> bool {
    a.end.bits <= b.start.bits || b.end.bits <= a.start.bits
}

/// The `PageSet` struct is an address space: a page table, the segments it maps, in the order
/// they were added, and the trampoline, mapped readable and executable at the top page.
pub struct PageSet {
    pub page_table: PageTable,
    pub segment_list: Vec<PageSegment>,
    pub trampoline_frame: FrameNumber,
}

impl PageSet {
    pub open spec fn wf(&self) -> bool {
        &&& self.page_table.wf()
        &&& self.trampoline_frame.wf()
        &&& self.page_table.lookup(TRAMPOLINE_PAGE as int) == Some(
            trampoline_entry(self.trampoline_frame),
        )
        &&& forall|i: int|
            0 <= i < self.segment_list@.len() ==> {
                let s = #[trigger] self.segment_list@[i];
                &&& s.wf()
                &&& s.complete()
                &&& s.mapped_in(&self.page_table)
                &&& s.page_range.end.bits <= TRAMPOLINE_PAGE
            }
        &&& forall|i: int, j: int|
            0 <= i < j < self.segment_list@.len() ==> ranges_disjoint(
                self.segment_list@[i].page_range,
                self.segment_list@[j].page_range,
            )
        &&& forall|p: int|
            0 <= p < PAGE_NUMBER_LIMIT && (#[trigger] self.page_table.lookup(p)) is Some ==> p
                == TRAMPOLINE_PAGE || exists|i: int|
                0 <= i < self.segment_list@.len() && self.segment_list@[i].page_range.contains(p)
    }

    /// The frames of every segment lie in the memory window.
    pub open spec fn backed_by(&self, memory: &PhysicalMemory) -> bool {
        forall|i: int|
            0 <= i < self.segment_list@.len() ==> (#[trigger] self.segment_list@[i]).backed_by(
                memory,
            )
    }

    /// A page range may join the space: it lies below the trampoline and meets no segment.
    pub open spec fn fits(&self, range: PageRange) -> bool {
        &&& range.end.bits <= TRAMPOLINE_PAGE
        &&& forall|i: int|
            0 <= i < self.segment_list@.len() ==> ranges_disjoint(
                #[trigger] self.segment_list@[i].page_range,
                range,
            )
    }

    /// Creates a space that maps only the trampoline, or `None` when the allocator lacks the
    /// three frames of the first tables.
    pub fn new(
        trampoline_frame: FrameNumber,
        allocator: &mut StackFrameAllocator,
        memory: &mut PhysicalMemory,
    ) -> (r: Option<Self>)
        requires
            trampoline_frame.wf(),
            old(allocator).wf(),
            old(memory).wf(),
            old(allocator).backed_by(old(memory)),
        ensures
            final(allocator).wf(),
            final(memory).wf(),
            final(allocator).backed_by(final(memory)),
            frames_kept(old(allocator), final(allocator), old(memory), final(memory)),
            r is Some <==> old(allocator).available() >= 3,
            r is Some ==> final(allocator).available() == old(allocator).available() - 3,
            r matches Some(s) ==> {
                &&& s.wf()
                &&& s.segment_list@.len() == 0
                &&& s.trampoline_frame == trampoline_frame
                &&& forall|p: int|
                    0 <= p < PAGE_NUMBER_LIMIT && p != TRAMPOLINE_PAGE ==> #[trigger] s.page_table.lookup(p) is None
            },
    {
        if !allocator.has_frames(3 as u128) {
            return None;
        }
        let mut page_table = match PageTable::new(allocator, memory) {
            Some(t) => t,
            None => {
                assert(false);
                return None;
            },
        };
        let ghost mid_allocator = *allocator;
        let ghost mid_memory = *memory;
        proof {
            assert(page_table.lookup(TRAMPOLINE_PAGE as int) is None);
            assert(page_table.tables_needed(TRAMPOLINE_PAGE as int) == 2);
            assert(PTE_R | PTE_X == 10u64) by (bit_vector);
        }
        let ok = page_table.map(
            PageNumber { bits: TRAMPOLINE_PAGE },
            trampoline_frame,
            PTE_R | PTE_X,
            allocator,
            memory,
        );
        assert(ok);
        proof {
            assert(PTE_R | PTE_X == 10u64) by (bit_vector);
            assert((10u64 | 1u64) == 11u64) by (bit_vector);
            assert forall|g: u64| #[trigger] old(allocator).is_allocated(g) implies allocator.is_allocated(g) by {
                assert(mid_allocator.is_allocated(g));
            }
            assert forall|g: int| old(memory).backs(g) && old(allocator).is_allocated(g as u64)
                implies #[trigger] memory.bytes(g) == old(memory).bytes(g) by {
                assert(mid_allocator.is_allocated(g as u64));
                assert(mid_memory.bytes(g) == old(memory).bytes(g));
            }
        }
        Some(PageSet { page_table, segment_list: Vec::new(), trampoline_frame })
    }

    /// Returns the value of `satp` that selects this space.
    pub fn satp(&self) -> (r: u64)
        requires
            self.wf(),
        ensures
            r == crate::page_table::SATP_SV39 + self.page_table.root_frame_number.bits,
    {
        self.page_table.satp()
    }

    /// Returns the valid leaf entry of a page, or `None`.
    pub fn translate(&self, page_number: PageNumber) -> (r: Option<PageTableEntry>)
        requires
            self.wf(),
            page_number.wf(),
        ensures
            r == self.page_table.lookup(page_number.bits as int),
    {
        self.page_table.translate_page(page_number)
    }

    pub fn segment_list(&self) -> (r: &Vec<PageSegment>)
        ensures
            r@ == self.segment_list@,
    {
        &self.segment_list
    }

    /// Returns `true` if a page range may join the space.
    pub fn fits_range(&self, range: PageRange) -> (r: bool)
        ensures
            r == self.fits(range),
    {
        if range.end.bits > TRAMPOLINE_PAGE {
            return false;
        }
        let mut i: usize = 0;
        while i < self.segment_list.len()
            invariant
                i <= self.segment_list@.len(),
                range.end.bits <= TRAMPOLINE_PAGE,
                forall|j: int|
                    0 <= j < i ==> ranges_disjoint(
                        #[trigger] self.segment_list@[j].page_range,
                        range,
                    ),
            decreases self.segment_list@.len() - i,
        {
            let other = self.segment_list[i].page_range;
            if !(other.end.bits <= range.start.bits || range.end.bits <= other.start.bits) {
                return false;
            }
            i = i + 1;
        }
        true
    }

    /// Returns the position of the first segment that holds the page of `address`.
    pub fn find_segment(&self, address: VirtualAddress) -> (r: Option<usize>)
        ensures
            r is None ==> forall|i: int|
                0 <= i < self.segment_list@.len() ==> !(
                #[trigger] self.segment_list@[i]).page_range.contains(
                    page_of_address(address.bits as int),
                ),
            r matches Some(i) ==> i < self.segment_list@.len() && self.segment_list@[i as int].page_range.contains(
                page_of_address(address.bits as int),
            ) && forall|j: int|
                0 <= j < i ==> !(#[trigger] self.segment_list@[j]).page_range.contains(
                    page_of_address(address.bits as int),
                ),
    {
        let mut i: usize = 0;
        while i < self.segment_list.len()
            invariant
                i <= self.segment_list@.len(),
                forall|j: int|
                    0 <= j < i ==> !(#[trigger] self.segment_list@[j]).page_range.contains(
                        page_of_address(address.bits as int),
                    ),
            decreases self.segment_list@.len() - i,
        {
            if self.segment_list[i].contains_address(address) {
                return Some(i);
            }
            i = i + 1;
        }
        None
    }

    /// Maps a new segment, fills its first bytes from `bytes`, and appends it. Returns `false`,
    /// and changes nothing, when the allocator lacks the frames of the segment's budget.
    pub fn push(
        &mut self,
        segment: PageSegment,
        bytes: Option<&[u8]>,
        allocator: &mut StackFrameAllocator,
        memory: &mut PhysicalMemory,
    ) -> (r: bool)
        requires
            old(self).wf(),
            old(self).backed_by(old(memory)),
            segment.wf(),
            segment.frame_map@.len() == 0,
            old(self).fits(segment.page_range),
            bytes matches Some(b) ==> segment.map_type == MapType::Framed && b@.len() <= (
            segment.page_range.end.bits - segment.page_range.start.bits) * PAGE_SIZE,
            old(allocator).wf(),
            old(memory).wf(),
            old(allocator).backed_by(old(memory)),
        ensures
            final(self).wf(),
            final(self).backed_by(final(memory)),
            final(allocator).wf(),
            final(memory).wf(),
            final(allocator).backed_by(final(memory)),
            final(memory).start == old(memory).start,
            final(memory).frame_count() == old(memory).frame_count(),
            final(self).trampoline_frame == old(self).trampoline_frame,
            final(self).page_table.root_frame_number == old(self).page_table.root_frame_number,
            r == (old(allocator).available() >= frame_budget(
                segment.map_type,
                segment.page_range.start.bits as int,
                segment.page_range.end.bits as int,
            )),
            !r ==> final(self).segment_list@ == old(self).segment_list@ && forall|p: int|
                0 <= p < PAGE_NUMBER_LIMIT ==> #[trigger] final(self).page_table.lookup(p) == old(self).page_table.lookup(p),
            r ==> final(allocator).available() >= old(allocator).available() - frame_budget(
                segment.map_type,
                segment.page_range.start.bits as int,
                segment.page_range.end.bits as int,
            ),
            r ==> {
                let s = final(self).segment_list@.last();
                &&& final(self).segment_list@ == old(self).segment_list@.push(s)
                &&& s.page_range == segment.page_range
                &&& s.map_type == segment.map_type
                &&& s.map_permission == segment.map_permission
                &&& forall|q: int| segment.page_range.contains(q) ==> (#[trigger] final(self).page_table.lookup(q)) is Some
                    && final(self).page_table.lookup(q).unwrap().frame_of() == s.frame_of_page(q)
                    && final(self).page_table.lookup(q).unwrap().flags_of() == segment.map_permission | PTE_V
                &&& s.distinct_frames()
                &&& forall|i: int|
                    0 <= i < s.frame_map@.len() ==> !old(allocator).is_allocated(
                        #[trigger] s.frame_map@[i].bits,
                    ) && final(allocator).is_allocated(s.frame_map@[i].bits)
                        && final(memory).holder_count(s.frame_map@[i].bits as int) == 1
                        && final(memory).bytes(s.frame_map@[i].bits as int) == overwritten(
                        Seq::new(PAGE_SIZE as nat, |k: int| 0u8),
                        match bytes {
                            Some(b) => chunk(b@, i),
                            None => Seq::empty(),
                        },
                    )
            },
            forall|p: int|
                0 <= p < PAGE_NUMBER_LIMIT && !segment.page_range.contains(p) ==> #[trigger] final(self).page_table.lookup(p) == old(self).page_table.lookup(p),
            forall|g: u64| #[trigger]
                old(allocator).is_allocated(g) ==> final(allocator).is_allocated(g),
            forall|g: int|
                old(memory).backs(g) && old(allocator).is_allocated(g as u64) ==> #[trigger] final(memory).bytes(g) == old(memory).bytes(g),
            forall|g: int|
                old(memory).backs(g) && old(allocator).is_allocated(g as u64) ==> #[trigger] final(memory).holder_count(g) == old(memory).holder_count(g),
    {
        let mut segment = segment;
        let start = segment.page_range.start.bits;
        let end = segment.page_range.end.bits;
        let budget: u64 = if start < end {
            let data: u64 = if segment.map_type == MapType::Framed {
                end - start
            } else {
                0
            };
            data + 2 * ((end - 1) / 512 - start / 512 + 1)
        } else {
            0
        };
        proof {
            if start < end {
                crate::page_table::lemma_leaf_key_monotonic(start as int, end - 1);
            }
        }
        assert(budget == frame_budget(segment.map_type, start as int, end as int));
        if !allocator.has_frames(budget as u128) {
            return false;
        }
        proof {
            assert forall|p: int| segment.page_range.contains(p) implies #[trigger] self.page_table.lookup(p) is None by {
                if self.page_table.lookup(p) is Some {
                    assert(p != TRAMPOLINE_PAGE);
                    let i = choose|i: int| 0 <= i < self.segment_list@.len() && self.segment_list@[i].page_range.contains(p);
                    assert(ranges_disjoint(self.segment_list@[i].page_range, segment.page_range));
                }
            }
        }
        let ghost before_memory = *memory;
        segment.map_range(&mut self.page_table, allocator, memory);
        let ghost mapped_memory = *memory;
        match bytes {
            Some(b) => {
                segment.clone_bytes(&self.page_table, b, memory);
            },
            None => {},
        }
        proof {
            assert forall|i: int| 0 <= i < segment.frame_map@.len() implies #[trigger] memory.bytes(segment.frame_map@[i].bits as int)
                == overwritten(Seq::new(PAGE_SIZE as nat, |k: int| 0u8), match bytes {
                    Some(b) => chunk(b@, i),
                    None => Seq::empty(),
                }) by {
                let f = segment.frame_map@[i].bits as int;
                if bytes is None {
                    assert(overwritten(Seq::new(PAGE_SIZE as nat, |k: int| 0u8), Seq::<u8>::empty()) =~= Seq::new(PAGE_SIZE as nat, |k: int| 0u8));
                }
            }
            assert forall|g: int| old(memory).backs(g) && old(allocator).is_allocated(g as u64)
                implies #[trigger] memory.holder_count(g) == old(memory).holder_count(g) by {
                assert(mapped_memory.holder_count(g) == old(memory).holder_count(g));
            }
            assert forall|g: int| old(memory).backs(g) && old(allocator).is_allocated(g as u64)
                implies #[trigger] memory.bytes(g) == old(memory).bytes(g) by {
                assert(mapped_memory.bytes(g) == old(memory).bytes(g));
                if bytes is Some {
                    assert forall|i: int| 0 <= i < segment.frame_map@.len() implies segment.frame_map@[i].bits != g by {
                        assert(!old(allocator).is_allocated(segment.frame_map@[i].bits));
                    }
                }
            }
        }
        let ghost old_list = self.segment_list@;
        self.segment_list.push(segment);
        proof {
            let list = self.segment_list@;
            assert(list == old_list.push(segment));
            assert forall|i: int| 0 <= i < list.len() implies {
                let s = #[trigger] list[i];
                &&& s.wf()
                &&& s.complete()
                &&& s.mapped_in(&self.page_table)
                &&& s.page_range.end.bits <= TRAMPOLINE_PAGE
            } by {
                if i < old_list.len() {
                    let s = old_list[i];
                    assert(list[i] == s);
                    assert(ranges_disjoint(s.page_range, segment.page_range));
                    assert forall|p: int| s.page_range.contains(p) implies #[trigger] self.page_table.lookup(p) is Some
                        && s.entry_fits(self.page_table.lookup(p).unwrap(), p) by {
                        assert(old(self).page_table.lookup(p) is Some);
                    }
                }
            }
            assert forall|i: int, j: int| 0 <= i < j < list.len() implies ranges_disjoint(
                list[i].page_range, list[j].page_range) by {
                if j == old_list.len() {
                    assert(ranges_disjoint(old_list[i].page_range, segment.page_range));
                } else {
                    assert(list[i] == old_list[i] && list[j] == old_list[j]);
                }
            }
            assert forall|p: int| 0 <= p < PAGE_NUMBER_LIMIT && (#[trigger] self.page_table.lookup(p)) is Some implies p
                == TRAMPOLINE_PAGE || exists|i: int| 0 <= i < list.len() && list[i].page_range.contains(p) by {
                if segment.page_range.contains(p) {
                    assert(list[old_list.len() as int] == segment);
                } else {
                    assert(old(self).page_table.lookup(p) is Some);
                    if p != TRAMPOLINE_PAGE {
                        let i = choose|i: int| 0 <= i < old_list.len() && old_list[i].page_range.contains(p);
                        assert(list[i] == old_list[i]);
                    }
                }
            }
            assert(!segment.page_range.contains(TRAMPOLINE_PAGE as int));
            assert forall|i: int| 0 <= i < list.len() implies (#[trigger] list[i]).backed_by(memory) by {
                if i < old_list.len() {
                    assert(list[i] == old_list[i]);
                    assert(old_list[i].backed_by(old(memory)));
                }
            }
        }
        true
    }
}

/// Setting the write bit and clearing the copy-on-write bit of flags below 2^10 keeps them
/// below 2^10 and keeps the valid, read, execute and user bits.
pub proof fn lemma_make_writable(flags: u64)
    requires
        flags < PTE_FLAGS_LIMIT,
    ensures
        ((flags | PTE_W) & !PTE_COW) < PTE_FLAGS_LIMIT,
        has_flag((flags | PTE_W) & !PTE_COW, PTE_W),
        !has_flag((flags | PTE_W) & !PTE_COW, PTE_COW),
        has_flag((flags | PTE_W) & !PTE_COW, PTE_V) == has_flag(flags, PTE_V),
        has_flag((flags | PTE_W) & !PTE_COW, PTE_R) == has_flag(flags, PTE_R),
        has_flag((flags | PTE_W) & !PTE_COW, PTE_X) == has_flag(flags, PTE_X),
        has_flag((flags | PTE_W) & !PTE_COW, PTE_U) == has_flag(flags, PTE_U),
{
    assert(flags < 1024u64 ==> ((flags | 4u64) & !256u64) < 1024u64) by (bit_vector);
    assert(((flags | 4u64) & !256u64) & 4u64 != 0) by (bit_vector);
    assert(((flags | 4u64) & !256u64) & 256u64 == 0) by (bit_vector);
    assert((((flags | 4u64) & !256u64) & 1u64 != 0) == (flags & 1u64 != 0)) by (bit_vector);
    assert((((flags | 4u64) & !256u64) & 2u64 != 0) == (flags & 2u64 != 0)) by (bit_vector);
    assert((((flags | 4u64) & !256u64) & 8u64 != 0) == (flags & 8u64 != 0)) by (bit_vector);
    assert((((flags | 4u64) & !256u64) & 16u64 != 0) == (flags & 16u64 != 0)) by (bit_vector);
}

/// The valid bit is idempotent.
pub proof fn lemma_valid_idempotent(flags: u64)
    requires
        has_flag(flags, PTE_V),
    ensures
        flags | PTE_V == flags,
{
    assert(flags & 1u64 != 0 ==> (flags | 1u64) == flags) by (bit_vector);
}

/// Every page of a segment has a valid entry, and while the page is not copy-on-write the
/// entry grants every permission of the segment.
pub proof fn lemma_segment_flags(set: &PageSet, i: int, page: int)
    requires
        set.wf(),
        0 <= i < set.segment_list@.len(),
        set.segment_list@[i].page_range.contains(page),
    ensures
        set.page_table.lookup(page) is Some,
        has_flag(set.page_table.lookup(page).unwrap().flags_of(), PTE_V),
        !has_flag(set.page_table.lookup(page).unwrap().flags_of(), PTE_COW) ==> forall|f: u64|
            (f == PTE_R || f == PTE_W || f == PTE_X || f == PTE_U) && has_flag(set.segment_list@[i].map_permission, f)
            ==> #[trigger] has_flag(set.page_table.lookup(page).unwrap().flags_of(), f),
{
    assert(set.segment_list@[i].mapped_in(&set.page_table));
}

/// The trampoline is the top page, apart from the trap-frame pages: mapping it leaves the
/// first trap-frame page unmapped.
pub proof fn lemma_trampoline_apart(set: &PageSet)
    requires
        set.wf(),
        set.segment_list@.len() == 0,
    ensures
        page_of_address(crate::constant::TRAMPOLINE as int) == TRAMPOLINE_PAGE,
        page_of_address(crate::constant::TRAP_CONTEXT_BASE as int) == TRAP_CONTEXT_PAGE,
        set.page_table.lookup(TRAMPOLINE_PAGE as int) == Some(trampoline_entry(set.trampoline_frame)),
        set.page_table.lookup(TRAP_CONTEXT_PAGE as int) is None,
{
    assert(0xffff_ffff_ffff_f000int / 4096 == 0xf_ffff_ffff_ffff);
    assert(0xffff_ffff_ffef_f000int / 4096 == 0xf_ffff_ffff_feff);
    if set.page_table.lookup(TRAP_CONTEXT_PAGE as int) is Some {
        assert(TRAP_CONTEXT_PAGE != TRAMPOLINE_PAGE);
    }
}

/// Whether the frames of a space lie in the window depends on the window alone.
pub proof fn lemma_backed_same_window(set: &PageSet, before: &PhysicalMemory, after: &PhysicalMemory)
    requires
        set.backed_by(before),
        after.start == before.start,
        after.frame_count() == before.frame_count(),
    ensures
        set.backed_by(after),
{
    assert forall|j: int| 0 <= j < set.segment_list@.len() implies (#[trigger] set.segment_list@[j]).backed_by(after) by {
        assert(set.segment_list@[j].backed_by(before));
    }
}

/// Two different segments of a space share no page.
pub proof fn lemma_segments_disjoint(set: &PageSet, a: int, b: int)
    requires
        set.wf(),
        0 <= a < set.segment_list@.len(),
        0 <= b < set.segment_list@.len(),
        a != b,
    ensures
        ranges_disjoint(set.segment_list@[a].page_range, set.segment_list@[b].page_range),
{
    if a > b {
        assert(ranges_disjoint(set.segment_list@[b].page_range, set.segment_list@[a].page_range));
    }
}

/// Replacing the frame of one page of a segment keeps the other pages' frames.
proof fn lemma_entry_fits_after_copy(
    before: Seq<PageSegment>,
    after: Seq<PageSegment>,
    i: int,
    index: int,
    frame: FrameNumber,
)
    requires
        0 <= i < before.len(),
        after.len() == before.len(),
        after[i].page_range == before[i].page_range,
        after[i].map_type == before[i].map_type,
        after[i].map_permission == before[i].map_permission,
        after[i].frame_map@ == before[i].frame_map@.update(index, frame),
        before[i].map_type == MapType::Framed,
        0 <= index < before[i].frame_map@.len(),
    ensures
        forall|p: int|
            before[i].page_range.start.bits <= p < before[i].page_range.start.bits + before[i].frame_map@.len()
            && p != before[i].page_range.start.bits + index ==> #[trigger] after[i].frame_of_page(p)
                == before[i].frame_of_page(p),
        after[i].frame_of_page(before[i].page_range.start.bits + index) == frame.bits,
{
}

impl PageSet {
    /// The position of the first segment that holds a page.
    pub open spec fn segment_of(&self, page: int) -> int {
        choose|i: int|
            0 <= i < self.segment_list@.len() && self.segment_list@[i].page_range.contains(page)
    }

    /// Whether a store to a page is a copy-on-write fault that can be resolved: the page is
    /// mapped copy-on-write inside a framed segment, and its frame is held once or a frame is
    /// left to copy it into.
    pub open spec fn cow_resolvable(
        &self,
        page: int,
        allocator: &StackFrameAllocator,
        memory: &PhysicalMemory,
    ) -> bool {
        &&& self.page_table.lookup(page) matches Some(e) && has_flag(e.flags_of(), PTE_COW)
        &&& page != TRAMPOLINE_PAGE
        &&& self.segment_list@[self.segment_of(page)].map_type == MapType::Framed
        &&& memory.holder_count(self.page_table.lookup(page).unwrap().frame_of() as int) <= 1
            || allocator.available() >= 1
    }

    /// Handles a store fault at `address`. When the page is mapped copy-on-write, it becomes
    /// writable: on its own frame when no other space holds that frame, else on a fresh copy of
    /// it. Returns `false`, changing nothing, when the fault is not such a fault.
    pub fn clone_frame(
        &mut self,
        address: VirtualAddress,
        allocator: &mut StackFrameAllocator,
        memory: &mut PhysicalMemory,
    ) -> (r: bool)
        requires
            old(self).wf(),
            old(self).backed_by(old(memory)),
            old(allocator).wf(),
            old(memory).wf(),
            old(allocator).backed_by(old(memory)),
        ensures
            final(self).wf(),
            final(self).backed_by(final(memory)),
            final(allocator).wf(),
            final(memory).wf(),
            final(allocator).backed_by(final(memory)),
            final(memory).start == old(memory).start,
            final(memory).frame_count() == old(memory).frame_count(),
            final(self).trampoline_frame == old(self).trampoline_frame,
            final(self).page_table.root_frame_number == old(self).page_table.root_frame_number,
            r == old(self).cow_resolvable(page_of_address(address.bits as int), old(allocator), old(memory)),
            !r ==> final(self).segment_list@ == old(self).segment_list@ && forall|p: int|
                0 <= p < PAGE_NUMBER_LIMIT ==> #[trigger] final(self).page_table.lookup(p) == old(self).page_table.lookup(p),
            !r ==> final(allocator).frame_start == old(allocator).frame_start
                && final(allocator).deallocated_page@ == old(allocator).deallocated_page@
                && final(memory).data@ == old(memory).data@ && final(memory).holders@ == old(memory).holders@,
            r && old(memory).holder_count(old(self).page_table.lookup(page_of_address(address.bits as int)).unwrap().frame_of() as int) <= 1
                ==> final(allocator).frame_start == old(allocator).frame_start
                && final(allocator).deallocated_page@ == old(allocator).deallocated_page@
                && final(memory).data@ == old(memory).data@ && final(memory).holders@ == old(memory).holders@,
            r ==> {
                let page = page_of_address(address.bits as int);
                let before = old(self).page_table.lookup(page).unwrap();
                let after = final(self).page_table.lookup(page).unwrap();
                &&& final(self).page_table.lookup(page) is Some
                &&& has_flag(after.flags_of(), PTE_W)
                &&& !has_flag(after.flags_of(), PTE_COW)
                &&& after.flags_of() == ((before.flags_of() | PTE_W) & !PTE_COW) as u64
                &&& old(memory).holder_count(before.frame_of() as int) <= 1 ==> after.frame_of() == before.frame_of()
                &&& old(memory).holder_count(before.frame_of() as int) > 1 && old(allocator).is_allocated(before.frame_of()) ==> {
                    &&& !old(allocator).is_allocated(after.frame_of())
                    &&& final(allocator).is_allocated(after.frame_of())
                    &&& final(memory).bytes(after.frame_of() as int) == old(memory).bytes(before.frame_of() as int)
                    &&& final(memory).holder_count(after.frame_of() as int) == 1
                    &&& final(memory).holder_count(before.frame_of() as int) == old(memory).holder_count(before.frame_of() as int) - 1
                    &&& final(memory).bytes(before.frame_of() as int) == old(memory).bytes(before.frame_of() as int)
                }
            },
            forall|p: int|
                0 <= p < PAGE_NUMBER_LIMIT && p != page_of_address(address.bits as int) ==> #[trigger] final(self).page_table.lookup(p) == old(self).page_table.lookup(p),
    {
        let page = address.floor();
        let ghost pg = page.bits as int;
        let entry = match self.page_table.translate_page(page) {
            None => return false,
            Some(e) => e,
        };
        if !entry.is_cow() {
            return false;
        }
        if page.bits == TRAMPOLINE_PAGE {
            return false;
        }
        let i = match self.find_segment(address) {
            None => {
                assert(false);
                return false;
            },
            Some(i) => i,
        };
        proof {
            let j = self.segment_of(pg);
            assert(0 <= j < self.segment_list@.len() && self.segment_list@[j].page_range.contains(pg));
            if j != i {
                assert(ranges_disjoint(self.segment_list@[i as int].page_range, self.segment_list@[j].page_range)) by {
                    if i < j {
                    } else {
                    }
                }
            }
        }
        if self.segment_list[i].map_type != MapType::Framed {
            return false;
        }
        let index: usize = (page.bits - self.segment_list[i].page_range.start.bits) as usize;
        let source = self.segment_list[i].frame_map[index];
        assert(source.bits == entry.frame_of());
        let flags = (entry.flags() | PTE_W) & !PTE_COW;
        proof {
            lemma_make_writable(entry.flags_of());
            lemma_valid_idempotent((entry.flags_of() | PTE_W) & !PTE_COW);
        }
        let count = memory.holders_of(source);
        if count <= 1 {
            self.page_table.remap(page, source, flags);
            proof {
                lemma_entry_fields(source.bits, flags);
                let list = self.segment_list@;
                assert forall|k: int| 0 <= k < list.len() implies (#[trigger] list[k]).mapped_in(&self.page_table) by {
                    assert forall|p: int| list[k].page_range.contains(p) implies #[trigger] self.page_table.lookup(p) is Some
                        && list[k].entry_fits(self.page_table.lookup(p).unwrap(), p) by {
                        assert(old(self).page_table.lookup(p) is Some);
                        if p == pg {
                            assert(k == i as int) by {
                                if k != i {
                                    assert(ranges_disjoint(list[i as int].page_range, list[k].page_range));
                                }
                            }
                        }
                    }
                }
                assert forall|p: int| 0 <= p < PAGE_NUMBER_LIMIT && (#[trigger] self.page_table.lookup(p)) is Some implies p
                    == TRAMPOLINE_PAGE || exists|k: int| 0 <= k < list.len() && list[k].page_range.contains(p) by {
                    if p != pg {
                        assert(old(self).page_table.lookup(p) is Some);
                    }
                }
            }
            return true;
        }
        let frame = match allocate_frame(allocator, memory) {
            None => return false,
            Some(f) => f,
        };
        let destination = frame.frame_number();
        let ghost zeroed = *memory;
        memory.copy_frame(destination, source);
        let ghost copied = *memory;
        memory.set_holders(source, count - 1);
        memory.set_holders(destination, 1);
        let ghost old_list = self.segment_list@;
        let mut segment = self.segment_list.remove(i);
        segment.frame_map.set(index, destination);
        self.segment_list.insert(i, segment);
        self.page_table.remap(page, destination, flags);
        proof {
            lemma_entry_fits_after_copy(old_list, self.segment_list@, i as int, index as int, destination);
            lemma_entry_fields(destination.bits, flags);
            let list = self.segment_list@;
            assert(list =~= old_list.update(i as int, segment));
            if old(allocator).is_allocated(source.bits) {
                assert(source.bits != destination.bits);
                assert(zeroed.bytes(source.bits as int) == old(memory).bytes(source.bits as int));
                assert(copied.bytes(source.bits as int) == zeroed.bytes(source.bits as int));
                assert(memory.bytes(source.bits as int) == copied.bytes(source.bits as int));
            }
            assert forall|k: int| 0 <= k < list.len() implies {
                let s = #[trigger] list[k];
                &&& s.wf()
                &&& s.complete()
                &&& s.mapped_in(&self.page_table)
                &&& s.page_range.end.bits <= TRAMPOLINE_PAGE
            } by {
                assert forall|p: int| list[k].page_range.contains(p) implies #[trigger] self.page_table.lookup(p) is Some
                    && list[k].entry_fits(self.page_table.lookup(p).unwrap(), p) by {
                    assert(old(self).page_table.lookup(p) is Some);
                    if k != i {
                        assert(list[k] == old_list[k]);
                        if p == pg {
                            assert(ranges_disjoint(list[i as int].page_range, list[k].page_range));
                        }
                    } else if p != pg {
                        assert(list[k].frame_of_page(p) == old_list[k].frame_of_page(p));
                    }
                }
                if k == i {
                    assert forall|j: int| 0 <= j < list[k].frame_map@.len() implies (#[trigger] list[k].frame_map@[j]).wf() by {
                        if j != index {
                            assert(list[k].frame_map@[j] == old_list[k].frame_map@[j]);
                        }
                    }
                }
            }
            assert forall|a: int, b: int| 0 <= a < b < list.len() implies ranges_disjoint(
                list[a].page_range, list[b].page_range) by {
                assert(list[a].page_range == old_list[a].page_range);
                assert(list[b].page_range == old_list[b].page_range);
            }
            assert forall|p: int| 0 <= p < PAGE_NUMBER_LIMIT && (#[trigger] self.page_table.lookup(p)) is Some implies p
                == TRAMPOLINE_PAGE || exists|k: int| 0 <= k < list.len() && list[k].page_range.contains(p) by {
                assert(old(self).page_table.lookup(p) is Some);
                if p != TRAMPOLINE_PAGE {
                    let k = choose|k: int| 0 <= k < old_list.len() && old_list[k].page_range.contains(p);
                    assert(list[k].page_range == old_list[k].page_range);
                }
            }
            assert forall|k: int| 0 <= k < list.len() implies (#[trigger] list[k]).backed_by(memory) by {
                assert(old_list[k].backed_by(old(memory)));
                if k == i {
                    assert forall|j: int| 0 <= j < list[k].frame_map@.len() implies memory.backs(#[trigger] list[k].frame_map@[j].bits as int) by {
                        if j != index {
                            assert(list[k].frame_map@[j] == old_list[k].frame_map@[j]);
                        }
                    }
                }
            }
        }
        true
    }
}

impl PageSet {
    /// Unmaps and drops the first segment that holds the page of `address`, if any.
    pub fn remove_segment(
        &mut self,
        address: VirtualAddress,
        allocator: &mut StackFrameAllocator,
        memory: &mut PhysicalMemory,
    )
        requires
            old(self).wf(),
            old(self).backed_by(old(memory)),
            old(allocator).wf(),
            old(memory).wf(),
            old(allocator).backed_by(old(memory)),
        ensures
            final(self).wf(),
            final(self).backed_by(final(memory)),
            final(allocator).wf(),
            final(memory).wf(),
            final(allocator).backed_by(final(memory)),
            final(memory).start == old(memory).start,
            final(memory).frame_count() == old(memory).frame_count(),
            final(self).trampoline_frame == old(self).trampoline_frame,
            final(self).page_table.root_frame_number == old(self).page_table.root_frame_number,
            (forall|i: int| 0 <= i < old(self).segment_list@.len() ==> !(#[trigger] old(self).segment_list@[i]).page_range.contains(
                page_of_address(address.bits as int))) ==> final(self).segment_list@ == old(self).segment_list@
                && forall|p: int| 0 <= p < PAGE_NUMBER_LIMIT ==> #[trigger] final(self).page_table.lookup(p) == old(self).page_table.lookup(p),
            forall|i: int| 0 <= i < old(self).segment_list@.len() && (#[trigger] old(self).segment_list@[i]).page_range.contains(
                page_of_address(address.bits as int)) ==> {
                &&& final(self).segment_list@ == old(self).segment_list@.remove(i)
                &&& forall|p: int| old(self).segment_list@[i].page_range.contains(p) ==> #[trigger] final(self).page_table.lookup(p) is None
                &&& forall|p: int| 0 <= p < PAGE_NUMBER_LIMIT && !old(self).segment_list@[i].page_range.contains(p)
                    ==> #[trigger] final(self).page_table.lookup(p) == old(self).page_table.lookup(p)
            },
    {
        let i = match self.find_segment(address) {
            None => return,
            Some(i) => i,
        };
        let ghost old_list = self.segment_list@;
        proof {
            assert forall|k: int| 0 <= k < old_list.len() && (#[trigger] old_list[k]).page_range.contains(
                page_of_address(address.bits as int)) implies k == i by {
                if k != i {
                    lemma_segments_disjoint(old(self), k, i as int);
                }
            }
            assert(old_list[i as int].backed_by(memory));
        }
        let mut segment = self.segment_list.remove(i);
        segment.unmap_range(&mut self.page_table, allocator, memory);
        proof {
            let list = self.segment_list@;
            let gone = old_list[i as int];
            assert(list == old_list.remove(i as int));
            assert forall|k: int| 0 <= k < list.len() implies {
                let s = #[trigger] list[k];
                &&& s.wf()
                &&& s.complete()
                &&& s.mapped_in(&self.page_table)
                &&& s.page_range.end.bits <= TRAMPOLINE_PAGE
            } by {
                let o = if k < i { k } else { k + 1 };
                assert(list[k] == old_list[o]);
                lemma_segments_disjoint(old(self), o, i as int);
                assert forall|p: int| list[k].page_range.contains(p) implies #[trigger] self.page_table.lookup(p) is Some
                    && list[k].entry_fits(self.page_table.lookup(p).unwrap(), p) by {
                    assert(old(self).page_table.lookup(p) is Some);
                }
            }
            assert forall|a: int, b: int| 0 <= a < b < list.len() implies ranges_disjoint(
                list[a].page_range, list[b].page_range) by {
                let oa = if a < i { a } else { a + 1 };
                let ob = if b < i { b } else { b + 1 };
                assert(list[a] == old_list[oa]);
                assert(list[b] == old_list[ob]);
            }
            assert forall|p: int| 0 <= p < PAGE_NUMBER_LIMIT && (#[trigger] self.page_table.lookup(p)) is Some implies p
                == TRAMPOLINE_PAGE || exists|k: int| 0 <= k < list.len() && list[k].page_range.contains(p) by {
                assert(!gone.page_range.contains(p));
                assert(old(self).page_table.lookup(p) is Some);
                if p != TRAMPOLINE_PAGE {
                    let o = choose|o: int| 0 <= o < old_list.len() && old_list[o].page_range.contains(p);
                    assert(o != i);
                    let k = if o < i { o } else { o - 1 };
                    assert(list[k] == old_list[o]);
                }
            }
            assert(!gone.page_range.contains(TRAMPOLINE_PAGE as int));
            assert forall|k: int| 0 <= k < list.len() implies (#[trigger] list[k]).backed_by(memory) by {
                let o = if k < i { k } else { k + 1 };
                assert(list[k] == old_list[o]);
                assert(old_list[o].backed_by(old(memory)));
            }
        }
    }

    /// Adds a framed segment over the pages that hold `start_address .. end_address`. Returns
    /// `false`, and changes nothing, when the pages meet a segment or the trampoline, or when the
    /// allocator lacks the frames of the segment's budget.
    pub fn insert_frame(
        &mut self,
        start_address: VirtualAddress,
        end_address: VirtualAddress,
        map_permission: u64,
        allocator: &mut StackFrameAllocator,
        memory: &mut PhysicalMemory,
    ) -> (r: bool)
        requires
            old(self).wf(),
            old(self).backed_by(old(memory)),
            start_address.wf(),
            end_address.wf(),
            start_address.bits <= end_address.bits <= crate::constant::TRAMPOLINE,
            map_permission < MAP_PERMISSION_LIMIT,
            old(allocator).wf(),
            old(memory).wf(),
            old(allocator).backed_by(old(memory)),
        ensures
            final(self).wf(),
            final(self).backed_by(final(memory)),
            final(allocator).wf(),
            final(memory).wf(),
            final(allocator).backed_by(final(memory)),
            final(memory).start == old(memory).start,
            final(memory).frame_count() == old(memory).frame_count(),
            final(self).trampoline_frame == old(self).trampoline_frame,
            final(self).page_table.root_frame_number == old(self).page_table.root_frame_number,
            ({
                let range = PageRange {
                    start: PageNumber { bits: page_of_address(start_address.bits as int) as u64 },
                    end: PageNumber { bits: crate::address::ceil_page_of_address(end_address.bits as int) as u64 },
                };
                &&& r == (old(self).fits(range) && old(allocator).available() >= frame_budget(
                    MapType::Framed, range.start.bits as int, range.end.bits as int))
                &&& r ==> final(allocator).available() >= old(allocator).available() - frame_budget(
                    MapType::Framed, range.start.bits as int, range.end.bits as int)
                &&& r ==> {
                    let s = final(self).segment_list@.last();
                    &&& final(self).segment_list@ == old(self).segment_list@.push(s)
                    &&& s.page_range == range
                    &&& s.map_type == MapType::Framed
                    &&& s.map_permission == map_permission
                }
                &&& forall|p: int| 0 <= p < PAGE_NUMBER_LIMIT && !(r && range.contains(p))
                    ==> #[trigger] final(self).page_table.lookup(p) == old(self).page_table.lookup(p)
            }),
            !r ==> final(self).segment_list@ == old(self).segment_list@,
    {
        let segment = PageSegment::new(start_address, end_address, MapType::Framed, map_permission);
        if !self.fits_range(segment.page_range) {
            return false;
        }
        self.push(segment, None, allocator, memory)
    }
}

/// The flags a page keeps after a fork: a writable page loses the write bit and gains the
/// copy-on-write bit; other pages keep their flags.
pub open spec fn cow_flags(flags: u64) -> u64 {
    if has_flag(flags, PTE_W) {
        ((flags & !PTE_W) | PTE_COW) as u64
    } else {
        flags
    }
}

/// The entry a page has on both sides of a fork.
pub open spec fn cow_entry(entry: PageTableEntry) -> PageTableEntry {
    PageTableEntry { bits: (entry.frame_of() * PTE_FLAGS_LIMIT + cow_flags(entry.flags_of())) as u64 }
}

/// The fork flags stay below 2^10, keep the valid, read, execute and user bits, clear the write
/// bit of a writable page and set its copy-on-write bit.
pub proof fn lemma_cow_flags(flags: u64)
    requires
        flags < PTE_FLAGS_LIMIT,
    ensures
        cow_flags(flags) < PTE_FLAGS_LIMIT,
        has_flag(cow_flags(flags), PTE_V) == has_flag(flags, PTE_V),
        has_flag(cow_flags(flags), PTE_R) == has_flag(flags, PTE_R),
        has_flag(cow_flags(flags), PTE_X) == has_flag(flags, PTE_X),
        has_flag(cow_flags(flags), PTE_U) == has_flag(flags, PTE_U),
        has_flag(flags, PTE_W) ==> !has_flag(cow_flags(flags), PTE_W) && has_flag(cow_flags(flags), PTE_COW),
        has_flag(flags, PTE_COW) ==> has_flag(cow_flags(flags), PTE_COW),
        cow_flags(cow_flags(flags)) == cow_flags(flags),
{
    assert(flags < 1024u64 ==> ((flags & !4u64) | 256u64) < 1024u64) by (bit_vector);
    assert((((flags & !4u64) | 256u64) & 1u64 != 0) == (flags & 1u64 != 0)) by (bit_vector);
    assert((((flags & !4u64) | 256u64) & 2u64 != 0) == (flags & 2u64 != 0)) by (bit_vector);
    assert((((flags & !4u64) | 256u64) & 8u64 != 0) == (flags & 8u64 != 0)) by (bit_vector);
    assert((((flags & !4u64) | 256u64) & 16u64 != 0) == (flags & 16u64 != 0)) by (bit_vector);
    assert(((flags & !4u64) | 256u64) & 4u64 == 0) by (bit_vector);
    assert(((flags & !4u64) | 256u64) & 256u64 != 0) by (bit_vector);
}

/// Returns the flags a page keeps after a fork.
pub fn fork_flags(flags: u64) -> (r: u64)
    requires
        flags < PTE_FLAGS_LIMIT,
    ensures
        r == cow_flags(flags),
{
    if flags & PTE_W != 0 {
        (flags & !PTE_W) | PTE_COW
    } else {
        flags
    }
}

impl PageSet {
    /// Adds a segment that shares the frames of `segment`, mapped in `source`: each page maps
    /// to the frame it has in `source`, with the flags it keeps after a fork. Returns `false`
    /// when the allocator lacks the frames of the tables.
    pub fn push_shared(
        &mut self,
        segment: &PageSegment,
        source: &PageTable,
        allocator: &mut StackFrameAllocator,
        memory: &mut PhysicalMemory,
    ) -> (r: bool)
        requires
            old(self).wf(),
            old(self).backed_by(old(memory)),
            old(self).fits(segment.page_range),
            segment.wf(),
            segment.complete(),
            segment.mapped_in(source),
            segment.backed_by(old(memory)),
            source.wf(),
            old(allocator).wf(),
            old(memory).wf(),
            old(allocator).backed_by(old(memory)),
        ensures
            final(allocator).wf(),
            final(memory).wf(),
            final(allocator).backed_by(final(memory)),
            frames_kept(old(allocator), final(allocator), old(memory), final(memory)),
            r == (old(allocator).available() >= frame_budget(MapType::Identical,
                segment.page_range.start.bits as int, segment.page_range.end.bits as int)),
            r ==> final(allocator).available() >= old(allocator).available() - frame_budget(MapType::Identical,
                segment.page_range.start.bits as int, segment.page_range.end.bits as int),
            r ==> {
                let s = final(self).segment_list@.last();
                &&& final(self).wf()
                &&& final(self).backed_by(final(memory))
                &&& final(self).trampoline_frame == old(self).trampoline_frame
                &&& final(self).segment_list@ == old(self).segment_list@.push(s)
                &&& s.page_range == segment.page_range
                &&& s.map_type == segment.map_type
                &&& s.map_permission == segment.map_permission
                &&& s.frame_map@ == segment.frame_map@
                &&& forall|p: int| segment.page_range.contains(p) ==> #[trigger] final(self).page_table.lookup(p)
                    == Some(cow_entry(source.lookup(p).unwrap()))
                &&& forall|p: int| 0 <= p < PAGE_NUMBER_LIMIT && !segment.page_range.contains(p)
                    ==> #[trigger] final(self).page_table.lookup(p) == old(self).page_table.lookup(p)
            },
    {
        let start = segment.page_range.start.bits;
        let end = segment.page_range.end.bits;
        let budget: u64 = if start < end {
            2 * ((end - 1) / 512 - start / 512 + 1)
        } else {
            0
        };
        proof {
            if start < end {
                crate::page_table::lemma_leaf_key_monotonic(start as int, end - 1);
            }
        }
        assert(budget == frame_budget(MapType::Identical, start as int, end as int));
        if !allocator.has_frames(budget as u128) {
            return false;
        }
        proof {
            assert forall|p: int| segment.page_range.contains(p) implies #[trigger] self.page_table.lookup(p) is None by {
                if self.page_table.lookup(p) is Some {
                    assert(p != TRAMPOLINE_PAGE);
                    let i = choose|i: int| 0 <= i < self.segment_list@.len() && self.segment_list@[i].page_range.contains(p);
                    assert(ranges_disjoint(self.segment_list@[i].page_range, segment.page_range));
                }
            }
        }
        let ghost budget0 = budget as int;
        let mut frame_map: Vec<FrameNumber> = Vec::new();
        let mut current: u64 = start;
        while current < end
            invariant
                start == segment.page_range.start.bits,
                end == segment.page_range.end.bits,
                start <= current <= end,
                budget0 == frame_budget(MapType::Identical, start as int, end as int),
                self.page_table.wf(),
                allocator.wf(),
                memory.wf(),
                allocator.backed_by(memory),
                frames_kept(old(allocator), allocator, old(memory), memory),
                self.segment_list@ == old(self).segment_list@,
                self.trampoline_frame == old(self).trampoline_frame,
                source.wf(),
                segment.wf(),
                segment.complete(),
                segment.mapped_in(source),
                segment.map_type == MapType::Framed ==> frame_map@ == segment.frame_map@.subrange(0, current - start),
                segment.map_type == MapType::Identical ==> frame_map@.len() == 0,
                current < end ==> allocator.available() >= old(allocator).available() - budget0
                    + 2 * (leaf_key(end - 1) - leaf_key(current as int)) + self.page_table.tables_needed(current as int)
                    && old(allocator).available() - budget0 >= 0,
                current == end ==> allocator.available() >= old(allocator).available() - budget0,
                forall|p: int| start <= p < current ==> #[trigger] self.page_table.lookup(p) == Some(cow_entry(source.lookup(p).unwrap())),
                forall|p: int| current <= p < end ==> #[trigger] self.page_table.lookup(p) is None,
                forall|p: int| 0 <= p < PAGE_NUMBER_LIMIT && !segment.page_range.contains(p)
                    ==> #[trigger] self.page_table.lookup(p) == old(self).page_table.lookup(p),
            decreases end - current,
        {
            proof {
                if current == start {
                    crate::page_table::lemma_leaf_key_monotonic(start as int, end - 1);
                }
            }
            let page = PageNumber { bits: current };
            assert(segment.page_range.contains(current as int));
            let entry = match source.translate_page(page) {
                Some(e) => e,
                None => {
                    assert(false);
                    return false;
                },
            };
            let flags = fork_flags(entry.flags());
            proof {
                lemma_cow_flags(entry.flags_of());
                lemma_valid_idempotent(cow_flags(entry.flags_of()));
                assert(has_flag(entry.flags_of(), PTE_V));
            }
            let ghost before_allocator = *allocator;
            let ghost before_memory = *memory;
            let ghost before_table = self.page_table;
            let ok = self.page_table.map(page, entry.frame_number(), flags, allocator, memory);
            assert(ok);
            if segment.map_type == MapType::Framed {
                frame_map.push(segment.frame_map[(current - start) as usize]);
            }
            proof {
                if current + 1 < end {
                    crate::page_table::lemma_leaf_key_step(current as int);
                    crate::page_table::lemma_leaf_key_monotonic(current + 1, end - 1);
                    crate::page_table::lemma_tables_needed_after(&self.page_table, current as int, current + 1);
                }
                if segment.map_type == MapType::Framed {
                    assert(frame_map@ =~= segment.frame_map@.subrange(0, current + 1 - start));
                }
                assert forall|g: u64| #[trigger] old(allocator).is_allocated(g) implies allocator.is_allocated(g) by {
                    assert(before_allocator.is_allocated(g));
                }
                assert forall|g: int| old(memory).backs(g) && old(allocator).is_allocated(g as u64)
                    implies #[trigger] memory.bytes(g) == old(memory).bytes(g) by {
                    assert(before_allocator.is_allocated(g as u64));
                    assert(before_memory.bytes(g) == old(memory).bytes(g));
                }
            }
            current = current + 1;
        }
        let shared = PageSegment {
            page_range: segment.page_range,
            frame_map,
            map_type: segment.map_type,
            map_permission: segment.map_permission,
        };
        let ghost old_list = self.segment_list@;
        assert(shared.frame_map@ =~= segment.frame_map@);
        self.segment_list.push(shared);
        proof {
            let list = self.segment_list@;
            assert(list == old_list.push(shared));
            assert forall|p: int| shared.page_range.contains(p) implies #[trigger] self.page_table.lookup(p) is Some
                && shared.entry_fits(self.page_table.lookup(p).unwrap(), p) by {
                let e = source.lookup(p).unwrap();
                lemma_cow_flags(e.flags_of());
                lemma_entry_fields(e.frame_of(), cow_flags(e.flags_of()));
            }
            assert forall|i: int| 0 <= i < list.len() implies {
                let s = #[trigger] list[i];
                &&& s.wf()
                &&& s.complete()
                &&& s.mapped_in(&self.page_table)
                &&& s.page_range.end.bits <= TRAMPOLINE_PAGE
            } by {
                if i < old_list.len() {
                    let s = old_list[i];
                    assert(list[i] == s);
                    assert(ranges_disjoint(s.page_range, segment.page_range));
                    assert forall|p: int| s.page_range.contains(p) implies #[trigger] self.page_table.lookup(p) is Some
                        && s.entry_fits(self.page_table.lookup(p).unwrap(), p) by {
                        assert(old(self).page_table.lookup(p) is Some);
                    }
                }
            }
            assert forall|i: int, j: int| 0 <= i < j < list.len() implies ranges_disjoint(
                list[i].page_range, list[j].page_range) by {
                if j == old_list.len() {
                    assert(ranges_disjoint(old_list[i].page_range, segment.page_range));
                } else {
                    assert(list[i] == old_list[i] && list[j] == old_list[j]);
                }
            }
            assert forall|p: int| 0 <= p < PAGE_NUMBER_LIMIT && (#[trigger] self.page_table.lookup(p)) is Some implies p
                == TRAMPOLINE_PAGE || exists|i: int| 0 <= i < list.len() && list[i].page_range.contains(p) by {
                if segment.page_range.contains(p) {
                    assert(list[old_list.len() as int] == shared);
                } else {
                    assert(old(self).page_table.lookup(p) is Some);
                    if p != TRAMPOLINE_PAGE {
                        let i = choose|i: int| 0 <= i < old_list.len() && old_list[i].page_range.contains(p);
                        assert(list[i] == old_list[i]);
                    }
                }
            }
            assert(!segment.page_range.contains(TRAMPOLINE_PAGE as int));
            assert forall|i: int| 0 <= i < list.len() implies (#[trigger] list[i]).backed_by(memory) by {
                if i < old_list.len() {
                    assert(list[i] == old_list[i]);
                    assert(old_list[i].backed_by(old(memory)));
                } else {
                    assert(segment.backed_by(old(memory)));
                }
            }
        }
        true
    }
}

/// The page of the first trap-frame page.
pub const TRAP_CONTEXT_PAGE: u64 = 0x7ff_feff;

/// What a fork takes from the allocator for one segment: a private segment, at or above the
/// trap-frame pages, is copied into fresh frames; any other segment only needs tables.
pub open spec fn fork_cost(segment: PageSegment) -> int {
    if segment.page_range.start.bits >= TRAP_CONTEXT_PAGE {
        frame_budget(segment.map_type, segment.page_range.start.bits as int, segment.page_range.end.bits as int)
    } else {
        frame_budget(MapType::Identical, segment.page_range.start.bits as int, segment.page_range.end.bits as int)
    }
}

/// What a fork takes for the first `n` segments.
pub open spec fn fork_budget(segments: Seq<PageSegment>, n: int) -> int
    decreases n,
{
    if n <= 0 {
        0
    } else {
        fork_budget(segments, n - 1) + fork_cost(segments[n - 1])
    }
}

/// The cost of a segment below the trampoline is below 2^28.
proof fn lemma_fork_cost_bound(segment: PageSegment)
    requires
        segment.wf(),
        segment.page_range.end.bits <= TRAMPOLINE_PAGE,
    ensures
        0 <= fork_cost(segment) < 0x1000_0000,
{
    let s = segment.page_range.start.bits as int;
    let e = segment.page_range.end.bits as int;
    if s < e {
        crate::page_table::lemma_leaf_key_monotonic(s, e - 1);
        assert(leaf_key(e - 1) < 262144);
    }
}

/// The budget grows with the number of segments.
proof fn lemma_fork_budget_monotonic(set: &PageSet, k: int, n: int)
    requires
        set.wf(),
        0 <= k <= n <= set.segment_list@.len(),
    ensures
        fork_budget(set.segment_list@, k) <= fork_budget(set.segment_list@, n),
    decreases n - k,
{
    if k < n {
        lemma_fork_budget_monotonic(set, k, n - 1);
        lemma_fork_cost_bound(set.segment_list@[n - 1]);
    }
}

impl PageSet {
    /// Returns what a fork of the space takes from the allocator.
    pub fn fork_frames(&self) -> (r: u128)
        requires
            self.wf(),
        ensures
            r == 3 + fork_budget(self.segment_list@, self.segment_list@.len() as int),
    {
        let mut total: u128 = 0;
        let mut k: usize = 0;
        while k < self.segment_list.len()
            invariant
                self.wf(),
                k <= self.segment_list@.len(),
                total == fork_budget(self.segment_list@, k as int),
                total <= k * 0x1000_0000,
            decreases self.segment_list@.len() - k,
        {
            let segment = &self.segment_list[k];
            let start = segment.page_range.start.bits;
            let end = segment.page_range.end.bits;
            proof {
                lemma_fork_cost_bound(*segment);
                if start < end {
                    crate::page_table::lemma_leaf_key_monotonic(start as int, end - 1);
                }
            }
            let cost: u64 = if start < end {
                let data: u64 = if start >= TRAP_CONTEXT_PAGE && segment.map_type == MapType::Framed {
                    end - start
                } else {
                    0
                };
                data + 2 * ((end - 1) / 512 - start / 512 + 1)
            } else {
                0
            };
            assert(cost == fork_cost(*segment));
            total = total + cost as u128;
            k = k + 1;
        }
        total + 3
    }

    /// Turns the pages of segment `k` into their fork entries and adds one holder to each of its
    /// frames.
    pub fn share_pages(&mut self, k: usize, memory: &mut PhysicalMemory)
        requires
            old(self).wf(),
            old(self).backed_by(old(memory)),
            k < old(self).segment_list@.len(),
            old(memory).wf(),
        ensures
            final(self).wf(),
            final(self).backed_by(final(memory)),
            final(self).segment_list@ == old(self).segment_list@,
            final(self).trampoline_frame == old(self).trampoline_frame,
            final(self).page_table.root_frame_number == old(self).page_table.root_frame_number,
            final(memory).wf(),
            final(memory).start == old(memory).start,
            final(memory).data@ == old(memory).data@,
            final(memory).frame_count() == old(memory).frame_count(),
            forall|p: int| old(self).segment_list@[k as int].page_range.contains(p) ==> #[trigger] final(self).page_table.lookup(p)
                == Some(cow_entry(old(self).page_table.lookup(p).unwrap())),
            forall|p: int| 0 <= p < PAGE_NUMBER_LIMIT && !old(self).segment_list@[k as int].page_range.contains(p)
                ==> #[trigger] final(self).page_table.lookup(p) == old(self).page_table.lookup(p),
    {
        let start = self.segment_list[k].page_range.start.bits;
        let end = self.segment_list[k].page_range.end.bits;
        let ghost segment = self.segment_list@[k as int];
        let mut current: u64 = start;
        while current < end
            invariant
                start == segment.page_range.start.bits,
                end == segment.page_range.end.bits,
                start <= current <= end,
                segment == old(self).segment_list@[k as int],
                k < old(self).segment_list@.len(),
                self.wf(),
                self.backed_by(memory),
                self.segment_list@ == old(self).segment_list@,
                self.trampoline_frame == old(self).trampoline_frame,
                self.page_table.root_frame_number == old(self).page_table.root_frame_number,
                memory.wf(),
                memory.start == old(memory).start,
                memory.data@ == old(memory).data@,
                memory.frame_count() == old(memory).frame_count(),
                forall|p: int| start <= p < current ==> #[trigger] self.page_table.lookup(p)
                    == Some(cow_entry(old(self).page_table.lookup(p).unwrap())),
                forall|p: int| 0 <= p < PAGE_NUMBER_LIMIT && !(start <= p < current)
                    ==> #[trigger] self.page_table.lookup(p) == old(self).page_table.lookup(p),
            decreases end - current,
        {
            let page = PageNumber { bits: current };
            let ghost pg = current as int;
            assert(segment.page_range.contains(pg));
            let entry = match self.page_table.translate_page(page) {
                Some(e) => e,
                None => {
                    assert(false);
                    return;
                },
            };
            let flags = fork_flags(entry.flags());
            proof {
                lemma_cow_flags(entry.flags_of());
                lemma_valid_idempotent(cow_flags(entry.flags_of()));
                lemma_entry_fields(entry.frame_of(), cow_flags(entry.flags_of()));
            }
            let ghost before = *self;
            self.page_table.remap(page, entry.frame_number(), flags);
            if self.segment_list[k].map_type == MapType::Framed {
                let frame = self.segment_list[k].frame_map[(current - start) as usize];
                let count = memory.holders_of(frame);
                if count < u64::MAX {
                    memory.set_holders(frame, count + 1);
                }
            }
            proof {
                let list = self.segment_list@;
                assert forall|i: int| 0 <= i < list.len() implies (#[trigger] list[i]).mapped_in(&self.page_table) by {
                    assert forall|p: int| list[i].page_range.contains(p) implies #[trigger] self.page_table.lookup(p) is Some
                        && list[i].entry_fits(self.page_table.lookup(p).unwrap(), p) by {
                        assert(before.page_table.lookup(p) is Some);
                        if p == pg {
                            if i != k {
                                lemma_segments_disjoint(&before, i, k as int);
                            }
                        }
                    }
                }
                assert forall|p: int| 0 <= p < PAGE_NUMBER_LIMIT && (#[trigger] self.page_table.lookup(p)) is Some implies p
                    == TRAMPOLINE_PAGE || exists|i: int| 0 <= i < list.len() && list[i].page_range.contains(p) by {
                    if p != pg {
                        assert(before.page_table.lookup(p) is Some);
                    }
                }
                assert(!segment.page_range.contains(TRAMPOLINE_PAGE as int));
                assert forall|i: int| 0 <= i < list.len() implies (#[trigger] list[i]).backed_by(memory) by {
                    assert(list[i].backed_by(old(memory)));
                }
            }
            current = current + 1;
        }
    }
}

impl PageSet {
    /// Creates the space of a forked child. Every segment below the trap-frame pages is shared:
    /// both spaces map its pages to the same frames, a writable page read-only and copy-on-write
    /// in both, and each shared frame gains a holder. Every segment at or above the trap-frame
    /// pages is copied into fresh frames. Returns `None`, changing neither space, when the
    /// allocator lacks what the fork takes.
    pub fn clone_from(
        page_set: &mut PageSet,
        allocator: &mut StackFrameAllocator,
        memory: &mut PhysicalMemory,
    ) -> (r: Option<PageSet>)
        requires
            old(page_set).wf(),
            old(page_set).backed_by(old(memory)),
            old(allocator).wf(),
            old(memory).wf(),
            old(allocator).backed_by(old(memory)),
        ensures
            final(allocator).wf(),
            final(memory).wf(),
            final(allocator).backed_by(final(memory)),
            final(memory).start == old(memory).start,
            final(memory).frame_count() == old(memory).frame_count(),
            final(page_set).wf(),
            final(page_set).backed_by(final(memory)),
            final(page_set).segment_list@ == old(page_set).segment_list@,
            final(page_set).trampoline_frame == old(page_set).trampoline_frame,
            final(page_set).page_table.root_frame_number == old(page_set).page_table.root_frame_number,
            r is Some <==> old(allocator).available() >= 3 + fork_budget(old(page_set).segment_list@, old(page_set).segment_list@.len() as int),
            r is None ==> forall|p: int| 0 <= p < PAGE_NUMBER_LIMIT ==> #[trigger] final(page_set).page_table.lookup(p)
                == old(page_set).page_table.lookup(p),
            r matches Some(child) ==> {
                let parents = old(page_set).segment_list@;
                &&& child.wf()
                &&& child.backed_by(final(memory))
                &&& child.trampoline_frame == old(page_set).trampoline_frame
                &&& child.segment_list@.len() == parents.len()
                &&& forall|k: int| 0 <= k < parents.len() ==> {
                    let c = #[trigger] child.segment_list@[k];
                    &&& c.page_range == parents[k].page_range
                    &&& c.map_type == parents[k].map_type
                    &&& c.map_permission == parents[k].map_permission
                    &&& parents[k].page_range.start.bits < TRAP_CONTEXT_PAGE ==> c.frame_map@ == parents[k].frame_map@
                    &&& parents[k].page_range.start.bits >= TRAP_CONTEXT_PAGE ==> forall|i: int| 0 <= i < c.frame_map@.len()
                        ==> !old(allocator).is_allocated(#[trigger] c.frame_map@[i].bits) && final(allocator).is_allocated(c.frame_map@[i].bits)
                }
                &&& forall|k: int, p: int| 0 <= k < parents.len() && parents[k].page_range.start.bits < TRAP_CONTEXT_PAGE
                    && #[trigger] parents[k].page_range.contains(p) ==> {
                    &&& final(page_set).page_table.lookup(p) == Some(cow_entry(old(page_set).page_table.lookup(p).unwrap()))
                    &&& child.page_table.lookup(p) == final(page_set).page_table.lookup(p)
                }
                &&& forall|p: int| 0 <= p < PAGE_NUMBER_LIMIT && (forall|k: int| 0 <= k < parents.len()
                    && parents[k].page_range.start.bits < TRAP_CONTEXT_PAGE ==> !(#[trigger] parents[k].page_range.contains(p)))
                    ==> #[trigger] final(page_set).page_table.lookup(p) == old(page_set).page_table.lookup(p)
            },
    {
        let budget = page_set.fork_frames();
        if !allocator.has_frames(budget) {
            return None;
        }
        let ghost parents = page_set.segment_list@;
        let ghost total = fork_budget(parents, parents.len() as int);
        proof {
            lemma_fork_budget_monotonic(page_set, 0, parents.len() as int);
        }
        let mut child = match PageSet::new(page_set.trampoline_frame, allocator, memory) {
            Some(c) => c,
            None => {
                assert(false);
                return None;
            },
        };
        let ghost start_allocator = *allocator;
        let n = page_set.segment_list.len();
        let mut k: usize = 0;
        while k < n
            invariant
                n == parents.len(),
                k <= n,
                *page_set == *old(page_set),
                parents == page_set.segment_list@,
                total == fork_budget(parents, n as int),
                page_set.wf(),
                page_set.backed_by(memory),
                child.wf(),
                child.backed_by(memory),
                child.trampoline_frame == page_set.trampoline_frame,
                child.segment_list@.len() == k,
                allocator.wf(),
                memory.wf(),
                allocator.backed_by(memory),
                memory.start == old(memory).start,
                memory.frame_count() == old(memory).frame_count(),
                allocator.available() >= total - fork_budget(parents, k as int),
                forall|g: u64| #[trigger] old(allocator).is_allocated(g) ==> allocator.is_allocated(g),
                forall|j: int| 0 <= j < k ==> {
                    let c = #[trigger] child.segment_list@[j];
                    &&& c.page_range == parents[j].page_range
                    &&& c.map_type == parents[j].map_type
                    &&& c.map_permission == parents[j].map_permission
                    &&& parents[j].page_range.start.bits < TRAP_CONTEXT_PAGE ==> c.frame_map@ == parents[j].frame_map@
                    &&& parents[j].page_range.start.bits >= TRAP_CONTEXT_PAGE ==> forall|i: int| 0 <= i < c.frame_map@.len()
                        ==> !old(allocator).is_allocated(#[trigger] c.frame_map@[i].bits) && allocator.is_allocated(c.frame_map@[i].bits)
                },
                forall|j: int, p: int| 0 <= j < k && parents[j].page_range.start.bits < TRAP_CONTEXT_PAGE
                    && #[trigger] parents[j].page_range.contains(p) ==> child.page_table.lookup(p)
                    == Some(cow_entry(page_set.page_table.lookup(p).unwrap())),
            decreases n - k,
        {
            proof {
                lemma_fork_budget_monotonic(page_set, (k + 1) as int, n as int);
                assert forall|j: int| 0 <= j < child.segment_list@.len() implies ranges_disjoint(
                    #[trigger] child.segment_list@[j].page_range, parents[k as int].page_range) by {
                    lemma_segments_disjoint(page_set, j, k as int);
                }
                assert(parents[k as int].page_range.end.bits <= TRAMPOLINE_PAGE);
                assert(parents[k as int].backed_by(memory));
            }
            let ghost before_child = child;
            let ghost before_allocator = *allocator;
            let segment = &page_set.segment_list[k];
            if segment.page_range.start.bits >= TRAP_CONTEXT_PAGE {
                let fresh = PageSegment {
                    page_range: segment.page_range,
                    frame_map: Vec::new(),
                    map_type: segment.map_type,
                    map_permission: segment.map_permission,
                };
                let ok = child.push(fresh, None, allocator, memory);
                assert(ok);
                if segment.map_type == MapType::Framed {
                    let count = segment.frame_map.len();
                    let mut i: usize = 0;
                    while i < count
                        invariant
                            count == segment.frame_map@.len(),
                            i <= count,
                            segment == &page_set.segment_list@[k as int],
                            k < n,
                            n == parents.len(),
                            *page_set == *old(page_set),
                            parents == page_set.segment_list@,
                            page_set.wf(),
                            child.wf(),
                            child.segment_list@.len() == k + 1,
                            child.segment_list@[k as int].frame_map@.len() == count,
                            memory.wf(),
                            memory.start == old(memory).start,
                            memory.frame_count() == old(memory).frame_count(),
                            page_set.backed_by(memory),
                            child.backed_by(memory),
                        decreases count - i,
                    {
                        proof {
                            assert(child.segment_list@[k as int].backed_by(memory));
                            assert(segment.backed_by(memory));
                        }
                        let destination = child.segment_list[k].frame_map[i];
                        let source = segment.frame_map[i];
                        let ghost before_memory = *memory;
                        memory.copy_frame(destination, source);
                        proof {
                            lemma_backed_same_window(page_set, &before_memory, memory);
                            lemma_backed_same_window(&child, &before_memory, memory);
                        }
                        i = i + 1;
                    }
                }
            } else {
                let ok = child.push_shared(segment, &page_set.page_table, allocator, memory);
                assert(ok);
            }
            proof {
                assert forall|g: u64| #[trigger] old(allocator).is_allocated(g) implies allocator.is_allocated(g) by {
                    assert(before_allocator.is_allocated(g));
                }
                assert forall|j: int| 0 <= j < k + 1 implies {
                    let c = #[trigger] child.segment_list@[j];
                    &&& c.page_range == parents[j].page_range
                    &&& c.map_type == parents[j].map_type
                    &&& c.map_permission == parents[j].map_permission
                    &&& parents[j].page_range.start.bits < TRAP_CONTEXT_PAGE ==> c.frame_map@ == parents[j].frame_map@
                    &&& parents[j].page_range.start.bits >= TRAP_CONTEXT_PAGE ==> forall|i: int| 0 <= i < c.frame_map@.len()
                        ==> !old(allocator).is_allocated(#[trigger] c.frame_map@[i].bits) && allocator.is_allocated(c.frame_map@[i].bits)
                } by {
                    if j < k {
                        assert(child.segment_list@[j] == before_child.segment_list@[j]);
                        if parents[j].page_range.start.bits >= TRAP_CONTEXT_PAGE {
                            assert forall|i: int| 0 <= i < child.segment_list@[j].frame_map@.len() implies
                                !old(allocator).is_allocated(#[trigger] child.segment_list@[j].frame_map@[i].bits)
                                && allocator.is_allocated(child.segment_list@[j].frame_map@[i].bits) by {
                                assert(before_allocator.is_allocated(child.segment_list@[j].frame_map@[i].bits));
                            }
                        }
                    } else {
                        if parents[j].page_range.start.bits >= TRAP_CONTEXT_PAGE {
                            assert forall|i: int| 0 <= i < child.segment_list@[j].frame_map@.len() implies
                                !old(allocator).is_allocated(#[trigger] child.segment_list@[j].frame_map@[i].bits)
                                && allocator.is_allocated(child.segment_list@[j].frame_map@[i].bits) by {
                                let f = child.segment_list@[j].frame_map@[i].bits;
                                assert(!before_allocator.is_allocated(f));
                            }
                        }
                    }
                }
                assert forall|j: int, p: int| 0 <= j < k + 1 && parents[j].page_range.start.bits < TRAP_CONTEXT_PAGE
                    && #[trigger] parents[j].page_range.contains(p) implies child.page_table.lookup(p)
                    == Some(cow_entry(page_set.page_table.lookup(p).unwrap())) by {
                    if j < k {
                        lemma_segments_disjoint(page_set, j, k as int);
                        assert(before_child.page_table.lookup(p) == Some(cow_entry(page_set.page_table.lookup(p).unwrap())));
                    }
                }
            }
            k = k + 1;
        }
        let mut k: usize = 0;
        while k < n
            invariant
                n == parents.len(),
                k <= n,
                parents == page_set.segment_list@,
                page_set.wf(),
                page_set.backed_by(memory),
                page_set.trampoline_frame == old(page_set).trampoline_frame,
                page_set.page_table.root_frame_number == old(page_set).page_table.root_frame_number,
                child.wf(),
                child.backed_by(memory),
                child.trampoline_frame == old(page_set).trampoline_frame,
                child.segment_list@.len() == n,
                memory.wf(),
                memory.start == old(memory).start,
                memory.frame_count() == old(memory).frame_count(),
                forall|j: int, p: int| 0 <= j < n && parents[j].page_range.start.bits < TRAP_CONTEXT_PAGE
                    && #[trigger] parents[j].page_range.contains(p) ==> child.page_table.lookup(p)
                    == Some(cow_entry(old(page_set).page_table.lookup(p).unwrap())),
                forall|j: int, p: int| 0 <= j < k && parents[j].page_range.start.bits < TRAP_CONTEXT_PAGE
                    && #[trigger] parents[j].page_range.contains(p) ==> page_set.page_table.lookup(p)
                    == Some(cow_entry(old(page_set).page_table.lookup(p).unwrap())),
                forall|p: int| 0 <= p < PAGE_NUMBER_LIMIT && (forall|j: int| 0 <= j < k
                    && parents[j].page_range.start.bits < TRAP_CONTEXT_PAGE ==> !(#[trigger] parents[j].page_range.contains(p)))
                    ==> #[trigger] page_set.page_table.lookup(p) == old(page_set).page_table.lookup(p),
            decreases n - k,
        {
            if page_set.segment_list[k].page_range.start.bits < TRAP_CONTEXT_PAGE {
                let ghost before = *page_set;
                let ghost before_memory = *memory;
                page_set.share_pages(k, memory);
                proof {
                    lemma_backed_same_window(&child, &before_memory, memory);
                }
                proof {
                    assert forall|j: int, p: int| 0 <= j < k + 1 && parents[j].page_range.start.bits < TRAP_CONTEXT_PAGE
                        && #[trigger] parents[j].page_range.contains(p) implies page_set.page_table.lookup(p)
                        == Some(cow_entry(old(page_set).page_table.lookup(p).unwrap())) by {
                        if j < k {
                            lemma_segments_disjoint(&before, j, k as int);
                        } else {
                            assert forall|i: int| 0 <= i < k && parents[i].page_range.start.bits < TRAP_CONTEXT_PAGE
                                implies !(#[trigger] parents[i].page_range.contains(p)) by {
                                lemma_segments_disjoint(&before, i, k as int);
                            }
                        }
                    }
                    assert forall|p: int| 0 <= p < PAGE_NUMBER_LIMIT && (forall|j: int| 0 <= j < k + 1
                        && parents[j].page_range.start.bits < TRAP_CONTEXT_PAGE ==> !(#[trigger] parents[j].page_range.contains(p)))
                        implies #[trigger] page_set.page_table.lookup(p) == old(page_set).page_table.lookup(p) by {
                        assert(!parents[k as int].page_range.contains(p));
                    }
                }
            }
            k = k + 1;
        }
        Some(child)
    }
}

/// The loadable program headers of an image.
pub open spec fn elf_loads(data: Seq<u8>) -> Seq<ProgramHeaderInfo> {
    load_headers(data, elf_ph_count(data) as int)
}

/// The pages of a loadable segment.
pub open spec fn load_range(h: ProgramHeaderInfo) -> PageRange {
    PageRange {
        start: PageNumber { bits: page_of_address(h.virtual_addr as int) as u64 },
        end: PageNumber { bits: crate::address::ceil_page_of_address(h.virtual_addr + h.mem_size) as u64 },
    }
}

/// The file bytes of a loadable segment.
pub open spec fn file_bytes(data: Seq<u8>, h: ProgramHeaderInfo) -> Seq<u8> {
    data.subrange(h.offset as int, h.offset + h.file_size)
}

/// A loadable header that makes sense on its own: its addresses are canonical, and its file
/// bytes lie in the image and fit in its pages.
pub open spec fn load_ok(data: Seq<u8>, h: ProgramHeaderInfo) -> bool {
    &&& h.virtual_addr + h.mem_size <= u64::MAX
    &&& crate::address::canonical(h.virtual_addr as int)
    &&& crate::address::canonical(h.virtual_addr + h.mem_size)
    &&& h.offset + h.file_size <= data.len()
    &&& h.file_size <= (load_range(h).end.bits - load_range(h).start.bits) * PAGE_SIZE
}

/// Loadable segments lie below the trampoline and share no page.
pub open spec fn loads_placed(loads: Seq<ProgramHeaderInfo>) -> bool {
    &&& forall|i: int| 0 <= i < loads.len() ==> (#[trigger] loads[i]).virtual_addr + loads[i].mem_size
        <= crate::constant::TRAMPOLINE
    &&& forall|a: int, b: int| 0 <= a < b < loads.len() ==> ranges_disjoint(load_range(loads[a]), load_range(loads[b]))
}

/// Every loadable header makes sense, and the segments are placed.
pub open spec fn loads_fine(data: Seq<u8>, loads: Seq<ProgramHeaderInfo>) -> bool {
    &&& forall|i: int| 0 <= i < loads.len() ==> load_ok(data, #[trigger] loads[i])
    &&& loads_placed(loads)
}

/// The highest end page of the first `n` loadable segments, 0 when there is none.
pub open spec fn top_page(loads: Seq<ProgramHeaderInfo>, n: int) -> int
    decreases n,
{
    if n <= 0 {
        0
    } else {
        let previous = top_page(loads, n - 1);
        let end = load_range(loads[n - 1]).end.bits as int;
        if end > previous {
            end
        } else {
            previous
        }
    }
}

/// The frames the segments of an image take, at most.
pub open spec fn load_budget(loads: Seq<ProgramHeaderInfo>) -> int
    decreases loads.len(),
{
    if loads.len() == 0 {
        0
    } else {
        load_budget(loads.drop_last()) + frame_budget(MapType::Framed,
            load_range(loads.last()).start.bits as int, load_range(loads.last()).end.bits as int)
    }
}

/// The headers, segments and entry point of an image are readable and in range, apart from
/// where the segments are placed.
pub open spec fn elf_well_formed(data: Seq<u8>) -> bool {
    &&& elf_header_ok(data)
    &&& program_headers_in_bounds(data)
    &&& forall|i: int| 0 <= i < elf_loads(data).len() ==> load_ok(data, #[trigger] elf_loads(data)[i])
    &&& crate::address::canonical(elf_entry_point(data) as int)
    &&& crate::address::address_of_page(top_page(elf_loads(data), elf_loads(data).len() as int)) + PAGE_SIZE
        <= u64::MAX
    &&& crate::address::canonical(crate::address::address_of_page(top_page(elf_loads(data), elf_loads(data).len() as int)) + PAGE_SIZE)
}

/// An image the loader turns into an address space, given the frames.
pub open spec fn elf_loadable(data: Seq<u8>) -> bool {
    &&& has_elf_magic(data)
    &&& elf_well_formed(data)
    &&& loads_placed(elf_loads(data))
}

/// The loadable headers among the first `n` are a prefix of those among the first `m`.
pub proof fn lemma_load_prefix(data: Seq<u8>, n: int, m: int)
    requires
        0 <= n <= m,
    ensures
        load_headers(data, n).len() <= load_headers(data, m).len(),
        load_headers(data, m).subrange(0, load_headers(data, n).len() as int) == load_headers(data, n),
    decreases m - n,
{
    if n < m {
        lemma_load_prefix(data, n, m - 1);
        let a = load_headers(data, n);
        let b = load_headers(data, m - 1);
        let c = load_headers(data, m);
        assert(c.subrange(0, a.len() as int) =~= b.subrange(0, a.len() as int));
    } else {
        assert(load_headers(data, m).subrange(0, load_headers(data, m).len() as int) =~= load_headers(data, m));
    }
}

/// A budget is never negative.
pub proof fn lemma_load_budget_nonnegative(loads: Seq<ProgramHeaderInfo>, n: int)
    ensures
        load_budget(loads) >= 0,
    decreases loads.len(),
{
    if loads.len() > 0 {
        lemma_load_budget_nonnegative(loads.drop_last(), n);
        let r = load_range(loads.last());
        if r.start.bits < r.end.bits {
            crate::page_table::lemma_leaf_key_monotonic(r.start.bits as int, r.end.bits - 1);
        }
    }
}

/// The budget of a prefix is at most the budget of the whole.
pub proof fn lemma_load_budget_prefix(loads: Seq<ProgramHeaderInfo>, n: int)
    requires
        0 <= n <= loads.len(),
    ensures
        load_budget(loads.subrange(0, n)) <= load_budget(loads),
    decreases loads.len() - n,
{
    if n < loads.len() {
        lemma_load_budget_prefix(loads.drop_last(), n);
        assert(loads.drop_last().subrange(0, n) =~= loads.subrange(0, n));
        let r = load_range(loads.last());
        if r.start.bits < r.end.bits {
            crate::page_table::lemma_leaf_key_monotonic(r.start.bits as int, r.end.bits - 1);
        }
    } else {
        assert(loads.subrange(0, n) =~= loads);
    }
}

/// The highest end page of a prefix does not see what is appended.
pub proof fn lemma_top_page_push(loads: Seq<ProgramHeaderInfo>, h: ProgramHeaderInfo, n: int)
    requires
        0 <= n <= loads.len(),
    ensures
        top_page(loads.push(h), n) == top_page(loads, n),
    decreases n,
{
    if n > 0 {
        lemma_top_page_push(loads, h, n - 1);
        assert(loads.push(h)[n - 1] == loads[n - 1]);
    }
}

/// At or below the trampoline, the rounded-up page of an address is at most the trampoline page.
pub proof fn lemma_ceil_below_trampoline(b: int)
    requires
        crate::address::canonical(b),
        0 <= b <= crate::constant::TRAMPOLINE,
    ensures
        crate::address::ceil_page_of_address(b) <= TRAMPOLINE_PAGE,
{
    crate::address::lemma_floor_le_ceil(b, b);
    let k: int = 0xf_ffff_f800_0000;
    let qb = b / 4096 + if b % 4096 == 0 { 0int } else { 1int };
    if b < crate::address::VIRTUAL_SIGN_BIT {
        assert(qb <= 0x400_0000);
        vstd::arithmetic::div_mod::lemma_small_mod(qb as nat, PAGE_NUMBER_LIMIT as nat);
    } else {
        assert(qb <= 0xf_ffff_ffff_ffff);
        assert(qb >= k);
        assert(k == 0x1_ffff_ffint * PAGE_NUMBER_LIMIT);
        vstd::arithmetic::div_mod::lemma_mod_multiples_vanish(0x1_ffff_ff, qb - k, PAGE_NUMBER_LIMIT as int);
        vstd::arithmetic::div_mod::lemma_small_mod((qb - k) as nat, PAGE_NUMBER_LIMIT as nat);
    }
}

impl PageSet {
    /// Builds the space of a program from an ELF image: the trampoline, and one framed user
    /// segment for each loadable program header, in header order, whose first bytes are the
    /// header's file bytes. Returns the space, the address one page above the highest segment,
    /// where user stacks go, and the entry point. An image without the ELF magic is refused by
    /// the precondition.
    pub fn from_elf(
        elf_data: &[u8],
        trampoline_frame: FrameNumber,
        allocator: &mut StackFrameAllocator,
        memory: &mut PhysicalMemory,
    ) -> (r: Result<(PageSet, VirtualAddress, VirtualAddress), ElfError>)
        requires
            has_elf_magic(elf_data@),
            trampoline_frame.wf(),
            old(allocator).wf(),
            old(memory).wf(),
            old(allocator).backed_by(old(memory)),
        ensures
            final(allocator).wf(),
            final(memory).wf(),
            final(allocator).backed_by(final(memory)),
            final(memory).start == old(memory).start,
            final(memory).frame_count() == old(memory).frame_count(),
            r != Err::<(PageSet, VirtualAddress, VirtualAddress), ElfError>(ElfError::BadMagic),
            elf_loadable(elf_data@) && old(allocator).available() >= 3 + load_budget(elf_loads(elf_data@))
                ==> r is Ok,
            r == Err::<(PageSet, VirtualAddress, VirtualAddress), ElfError>(ElfError::Malformed)
                ==> !elf_well_formed(elf_data@),
            r == Err::<(PageSet, VirtualAddress, VirtualAddress), ElfError>(ElfError::Overlap)
                ==> elf_header_ok(elf_data@) && !loads_placed(elf_loads(elf_data@)),
            r == Err::<(PageSet, VirtualAddress, VirtualAddress), ElfError>(ElfError::OutOfMemory)
                ==> old(allocator).available() < 3 + load_budget(elf_loads(elf_data@)),
            r is Ok ==> final(allocator).available() >= old(allocator).available() - 3 - load_budget(elf_loads(elf_data@)),
            r matches Ok((set, base, entry)) ==> {
                let loads = elf_loads(elf_data@);
                &&& elf_loadable(elf_data@)
                &&& set.wf()
                &&& set.backed_by(final(memory))
                &&& set.trampoline_frame == trampoline_frame
                &&& entry.bits == elf_entry_point(elf_data@)
                &&& set.segment_list@.len() == loads.len()
                &&& forall|i: int| 0 <= i < loads.len() ==> {
                    let s = #[trigger] set.segment_list@[i];
                    &&& s.map_type == MapType::Framed
                    &&& s.map_permission == elf_permission(loads[i].flags)
                    &&& s.page_range == load_range(loads[i])
                    &&& forall|k: int| 0 <= k < s.frame_map@.len() ==> {
                        &&& final(allocator).is_allocated(#[trigger] s.frame_map@[k].bits)
                        &&& final(memory).bytes(s.frame_map@[k].bits as int) == overwritten(
                            Seq::new(PAGE_SIZE as nat, |b: int| 0u8),
                            chunk(file_bytes(elf_data@, loads[i]), k),
                        )
                    }
                }
                &&& base.bits == crate::address::address_of_page(top_page(loads, loads.len() as int)) + PAGE_SIZE
            },
    {
        if !parse_elf(elf_data) {
            return Err(ElfError::Malformed);
        }
        let count = elf_program_header_count(elf_data);
        let header_offset = elf_program_header_offset(elf_data);
        let header_size = elf_program_header_size(elf_data);
        assert((count as u128) * (header_size as u128) <= 0x1_0000_0000) by (nonlinear_arith)
            requires
                count <= 0xffff,
                header_size <= 0xffff,
        ;
        let table_end: u128 = header_offset as u128 + (count as u128) * (header_size as u128);
        if count > 0 && (header_offset == 0 || header_offset % 8 != 0 || header_size % 8 != 0
            || header_size < 56 || table_end > elf_data.len() as u128) {
            return Err(ElfError::Malformed);
        }
        proof {
            lemma_load_budget_nonnegative(elf_loads(elf_data@), elf_loads(elf_data@).len() as int);
        }
        let mut set = match PageSet::new(trampoline_frame, allocator, memory) {
            Some(set) => set,
            None => return Err(ElfError::OutOfMemory),
        };
        let ghost all = elf_loads(elf_data@);
        let mut top: u64 = 0;
        let mut index: u16 = 0;
        while index < count
            invariant
                index <= count,
                count == elf_ph_count(elf_data@),
                elf_header_ok(elf_data@),
                program_headers_in_bounds(elf_data@),
                all == elf_loads(elf_data@),
                old(allocator).available() >= 3,
                set.wf(),
                set.backed_by(memory),
                set.trampoline_frame == trampoline_frame,
                allocator.wf(),
                memory.wf(),
                allocator.backed_by(memory),
                memory.start == old(memory).start,
                memory.frame_count() == old(memory).frame_count(),
                loads_fine(elf_data@, load_headers(elf_data@, index as int)),
                allocator.available() >= old(allocator).available() - 3 - load_budget(load_headers(elf_data@, index as int)),
                top == top_page(load_headers(elf_data@, index as int), load_headers(elf_data@, index as int).len() as int),
                top < PAGE_NUMBER_LIMIT,
                load_headers(elf_data@, index as int).len() <= index,
                set.segment_list@.len() == load_headers(elf_data@, index as int).len(),
                forall|i: int| 0 <= i < set.segment_list@.len() ==> {
                    let s = #[trigger] set.segment_list@[i];
                    let h = load_headers(elf_data@, index as int)[i];
                    &&& s.map_type == MapType::Framed
                    &&& s.map_permission == elf_permission(h.flags)
                    &&& s.page_range == load_range(h)
                    &&& forall|k: int| 0 <= k < s.frame_map@.len() ==> {
                        &&& allocator.is_allocated(#[trigger] s.frame_map@[k].bits)
                        &&& memory.backs(s.frame_map@[k].bits as int)
                        &&& memory.bytes(s.frame_map@[k].bits as int) == overwritten(
                            Seq::new(PAGE_SIZE as nat, |b: int| 0u8),
                            chunk(file_bytes(elf_data@, h), k),
                        )
                    }
                },
            decreases count - index,
        {
            let header = match elf_read_program_header(elf_data, index) {
                Some(h) => h,
                None => {
                    assert(false);
                    return Err(ElfError::Malformed);
                },
            };
            let ghost previous = load_headers(elf_data@, index as int);
            let ghost before = set.segment_list@;
            let ghost before_allocator = *allocator;
            let ghost before_memory = *memory;
            proof {
                assert(elf_program_header(elf_data@, index) == header);
                lemma_load_prefix(elf_data@, index + 1, count as int);
                lemma_load_prefix(elf_data@, index as int, count as int);
                assert(all.subrange(0, previous.len() as int) == previous);
                assert forall|k: int| 0 <= k < previous.len() implies all[k] == previous[k] by {
                    assert(all.subrange(0, previous.len() as int)[k] == all[k]);
                }
                if header.is_load {
                    let pre = load_headers(elf_data@, index + 1);
                    assert(pre == previous.push(header));
                    assert(all.subrange(0, pre.len() as int) == pre);
                    assert(all.subrange(0, pre.len() as int)[previous.len() as int] == all[previous.len() as int]);
                    assert(all[previous.len() as int] == header);
                }
            }
            if header.is_load {
                if header.mem_size > u64::MAX - header.virtual_addr {
                    proof {
                        assert(!load_ok(elf_data@, all[previous.len() as int]));
                    }
                    return Err(ElfError::Malformed);
                }
                let start = match VirtualAddress::try_new(header.virtual_addr) {
                    Some(a) => a,
                    None => {
                        proof {
                            assert(!load_ok(elf_data@, all[previous.len() as int]));
                        }
                        return Err(ElfError::Malformed);
                    },
                };
                let end = match VirtualAddress::try_new(header.virtual_addr + header.mem_size) {
                    Some(a) => a,
                    None => {
                        proof {
                            assert(!load_ok(elf_data@, all[previous.len() as int]));
                        }
                        return Err(ElfError::Malformed);
                    },
                };
                if end.bits > crate::constant::TRAMPOLINE {
                    return Err(ElfError::Overlap);
                }
                let permission = permission_of(header.flags);
                let segment = PageSegment::new(start, end, MapType::Framed, permission);
                proof {
                    lemma_ceil_below_trampoline(end.bits as int);
                }
                if !set.fits_range(segment.page_range) {
                    proof {
                        let k = choose|k: int| 0 <= k < set.segment_list@.len() && !ranges_disjoint(
                            set.segment_list@[k].page_range, segment.page_range);
                        assert(all[k] == previous[k]);
                    }
                    return Err(ElfError::Overlap);
                }
                let pages = segment.page_range.end.bits - segment.page_range.start.bits;
                let image_length = elf_data.len() as u64;
                if header.file_size > u64::MAX - header.offset || header.offset + header.file_size
                    > image_length || header.file_size > pages * PAGE_SIZE {
                    proof {
                        assert(segment.page_range == load_range(header));
                        assert(pages == load_range(header).end.bits - load_range(header).start.bits);
                        if header.file_size <= u64::MAX - header.offset && header.offset + header.file_size <= elf_data.len() as u64 {
                            assert(header.file_size > (load_range(header).end.bits - load_range(header).start.bits) * PAGE_SIZE);
                        }
                        assert(!load_ok(elf_data@, all[previous.len() as int]));
                    }
                    return Err(ElfError::Malformed);
                }
                let bytes = vstd::slice::slice_subrange(
                    elf_data,
                    header.offset as usize,
                    (header.offset + header.file_size) as usize,
                );
                let end_page = segment.page_range.end;
                proof {
                    lemma_load_budget_prefix(all, previous.len() as int + 1);
                    lemma_load_prefix(elf_data@, index + 1, count as int);
                    assert(all.subrange(0, previous.len() as int + 1) =~= previous.push(header));
                    assert(previous.push(header).drop_last() =~= previous);
                    assert(segment.page_range == load_range(header));
                    assert(load_budget(previous.push(header)) == load_budget(previous) + frame_budget(
                        MapType::Framed, load_range(header).start.bits as int, load_range(header).end.bits as int));
                }
                if !set.push(segment, Some(bytes), allocator, memory) {
                    return Err(ElfError::OutOfMemory);
                }
                if end_page.bits > top {
                    top = end_page.bits;
                }
                proof {
                    lemma_top_page_push(previous, header, previous.len() as int);
                    let list = set.segment_list@;
                    assert(load_budget(previous.push(header)) == load_budget(previous) + frame_budget(
                        MapType::Framed, load_range(header).start.bits as int, load_range(header).end.bits as int));
                    assert forall|i: int| 0 <= i < list.len() implies {
                        let s = #[trigger] list[i];
                        let h = previous.push(header)[i];
                        &&& s.map_type == MapType::Framed
                        &&& s.map_permission == elf_permission(h.flags)
                        &&& s.page_range == load_range(h)
                        &&& forall|k: int| 0 <= k < s.frame_map@.len() ==> {
                            &&& allocator.is_allocated(#[trigger] s.frame_map@[k].bits)
                            &&& memory.backs(s.frame_map@[k].bits as int)
                            &&& memory.bytes(s.frame_map@[k].bits as int) == overwritten(
                                Seq::new(PAGE_SIZE as nat, |b: int| 0u8),
                                chunk(file_bytes(elf_data@, h), k),
                            )
                        }
                    } by {
                        if i < before.len() {
                            assert(list[i] == before[i]);
                            assert forall|k: int| 0 <= k < list[i].frame_map@.len() implies {
                                &&& allocator.is_allocated(#[trigger] list[i].frame_map@[k].bits)
                                &&& memory.backs(list[i].frame_map@[k].bits as int)
                                &&& memory.bytes(list[i].frame_map@[k].bits as int) == overwritten(
                                    Seq::new(PAGE_SIZE as nat, |b: int| 0u8),
                                    chunk(file_bytes(elf_data@, previous[i]), k),
                                )
                            } by {
                                let f = list[i].frame_map@[k].bits;
                                assert(before_allocator.is_allocated(f));
                                assert(before_memory.backs(f as int));
                            }
                        } else {
                            assert(bytes@ == file_bytes(elf_data@, header));
                            assert(list[i].backed_by(memory));
                        }
                    }
                    assert(loads_fine(elf_data@, previous.push(header))) by {
                        assert forall|a: int, b: int| 0 <= a < b < previous.len() + 1 implies ranges_disjoint(
                            load_range(previous.push(header)[a]), load_range(previous.push(header)[b])) by {
                            if b == previous.len() {
                                assert(before[a].page_range == load_range(previous[a]));
                            }
                        }
                    }
                }
            }
            index = index + 1;
        }
        proof {
            assert(load_headers(elf_data@, count as int) == all);
        }
        let limit = VirtualAddress::from_page(PageNumber { bits: top });
        let base = match limit.add(PAGE_SIZE) {
            Some(a) => a,
            None => return Err(ElfError::Malformed),
        };
        let entry = match VirtualAddress::try_new(elf_entry(elf_data)) {
            Some(a) => a,
            None => return Err(ElfError::Malformed),
        };
        Ok((set, base, entry))
    }
}

/// The pages from the one holding `start` up to the one holding `end`, rounded up.
pub open spec fn identity_range(start: u64, end: u64) -> PageRange {
    PageRange {
        start: PageNumber { bits: page_of_address(start as int) as u64 },
        end: PageNumber { bits: crate::address::ceil_page_of_address(end as int) as u64 },
    }
}

/// The frames the tables of an identical segment over a range take, at most.
pub open spec fn identity_budget(range: PageRange) -> int {
    frame_budget(MapType::Identical, range.start.bits as int, range.end.bits as int)
}

/// The pages of region `i` of the kernel space.
pub open spec fn kernel_range(layout: KernelLayout, i: int) -> PageRange {
    identity_range(layout.regions()[i].0, layout.regions()[i].1)
}

/// The regions of the kernel space share no page.
pub open spec fn kernel_regions_apart(layout: KernelLayout) -> bool {
    forall|a: int, b: int| 0 <= a < b < 5 ==> ranges_disjoint(kernel_range(layout, a), kernel_range(layout, b))
}

/// The frames the tables of the kernel space take, at most, besides the first three.
pub open spec fn kernel_budget(layout: KernelLayout) -> int {
    identity_budget(kernel_range(layout, 0)) + identity_budget(kernel_range(layout, 1))
        + identity_budget(kernel_range(layout, 2)) + identity_budget(kernel_range(layout, 3))
        + identity_budget(kernel_range(layout, 4))
}

/// An identical range below the memory limit has a budget that is not negative, and lies below
/// the trampoline.
pub proof fn lemma_identity_range(start: u64, end: u64)
    requires
        start <= end <= crate::constant::MEM_LIMIT,
    ensures
        identity_budget(identity_range(start, end)) >= 0,
        identity_range(start, end).start.bits <= identity_range(start, end).end.bits <= TRAMPOLINE_PAGE,
{
    crate::address::lemma_floor_le_ceil(start as int, end as int);
    lemma_ceil_below_trampoline(end as int);
    let r = identity_range(start, end);
    if r.start.bits < r.end.bits {
        crate::page_table::lemma_leaf_key_monotonic(r.start.bits as int, r.end.bits - 1);
    }
}

/// Where the linker placed the sections of the kernel image.
#[derive(Copy, Clone, PartialEq, Eq, Structural, Debug)]
pub struct KernelLayout {
    pub text_start: u64,
    pub text_end: u64,
    pub rodata_start: u64,
    pub rodata_end: u64,
    pub data_start: u64,
    pub data_end: u64,
    pub bss_stack_start: u64,
    pub bss_end: u64,
    pub kernel_end: u64,
}

impl KernelLayout {
    /// The sections follow each other in this order below the memory limit.
    pub open spec fn wf(&self) -> bool {
        &&& self.text_start <= self.text_end <= self.rodata_start <= self.rodata_end
        &&& self.rodata_end <= self.data_start <= self.data_end <= self.bss_stack_start
        &&& self.bss_stack_start <= self.bss_end <= self.kernel_end <= crate::constant::MEM_LIMIT
    }

    /// The sections of the image with their permissions, and the rest of memory, in order.
    pub open spec fn regions(&self) -> Seq<(u64, u64, u64)> {
        seq![
            (self.text_start, self.text_end, MAP_R | MAP_X),
            (self.rodata_start, self.rodata_end, MAP_R),
            (self.data_start, self.data_end, MAP_R | MAP_W),
            (self.bss_stack_start, self.bss_end, MAP_R | MAP_W),
            (self.kernel_end, crate::constant::MEM_LIMIT, MAP_R | MAP_W),
        ]
    }
}

impl PageSet {
    /// Adds an identical segment over `start .. end`; `false` when it does not fit or the
    /// allocator lacks its frames.
    fn push_identical(
        &mut self,
        start: u64,
        end: u64,
        map_permission: u64,
        allocator: &mut StackFrameAllocator,
        memory: &mut PhysicalMemory,
    ) -> (r: bool)
        requires
            old(self).wf(),
            old(self).backed_by(old(memory)),
            start <= end <= crate::constant::MEM_LIMIT,
            map_permission < MAP_PERMISSION_LIMIT,
            old(allocator).wf(),
            old(memory).wf(),
            old(allocator).backed_by(old(memory)),
        ensures
            final(self).wf(),
            final(self).backed_by(final(memory)),
            final(allocator).wf(),
            final(memory).wf(),
            final(allocator).backed_by(final(memory)),
            final(memory).start == old(memory).start,
            final(memory).frame_count() == old(memory).frame_count(),
            final(self).trampoline_frame == old(self).trampoline_frame,
            r == (old(self).fits(identity_range(start, end)) && old(allocator).available() >= frame_budget(
                MapType::Identical, identity_range(start, end).start.bits as int, identity_range(start, end).end.bits as int)),
            r ==> final(allocator).available() >= old(allocator).available() - frame_budget(
                MapType::Identical, identity_range(start, end).start.bits as int, identity_range(start, end).end.bits as int),
            r ==> forall|q: int| identity_range(start, end).contains(q) ==> (#[trigger] final(self).page_table.lookup(q)) is Some
                && final(self).page_table.lookup(q).unwrap().frame_of() == q
                && final(self).page_table.lookup(q).unwrap().flags_of() == map_permission | PTE_V,
            forall|q: int| 0 <= q < PAGE_NUMBER_LIMIT && !(r && identity_range(start, end).contains(q))
                ==> #[trigger] final(self).page_table.lookup(q) == old(self).page_table.lookup(q),
            r ==> {
                let s = final(self).segment_list@.last();
                &&& final(self).segment_list@ == old(self).segment_list@.push(s)
                &&& s.page_range == identity_range(start, end)
                &&& s.map_type == MapType::Identical
                &&& s.map_permission == map_permission
                &&& s.page_range.start.bits == page_of_address(start as int)
                &&& s.page_range.end.bits == crate::address::ceil_page_of_address(end as int)
            },
    {
        let segment = PageSegment::new(
            VirtualAddress { bits: start },
            VirtualAddress { bits: end },
            MapType::Identical,
            map_permission,
        );
        if !self.fits_range(segment.page_range) {
            return false;
        }
        self.push(segment, None, allocator, memory)
    }

    /// Builds the kernel space: the trampoline, and the sections of the kernel image and the
    /// rest of memory up to the limit, each mapped to the frames with the same numbers, in the
    /// order of `KernelLayout::regions`. Returns `None` when the allocator runs out of frames
    /// or two regions share a page.
    pub fn from_kernel(
        layout: KernelLayout,
        trampoline_frame: FrameNumber,
        allocator: &mut StackFrameAllocator,
        memory: &mut PhysicalMemory,
    ) -> (r: Option<PageSet>)
        requires
            layout.wf(),
            trampoline_frame.wf(),
            old(allocator).wf(),
            old(memory).wf(),
            old(allocator).backed_by(old(memory)),
        ensures
            final(allocator).wf(),
            final(memory).wf(),
            final(allocator).backed_by(final(memory)),
            final(memory).start == old(memory).start,
            final(memory).frame_count() == old(memory).frame_count(),
            kernel_regions_apart(layout) && old(allocator).available() >= 3 + kernel_budget(layout) ==> r is Some,
            r matches Some(set) ==> forall|i: int, p: int| 0 <= i < 5 && #[trigger] kernel_range(layout, i).contains(p)
                ==> set.page_table.lookup(p) is Some && set.page_table.lookup(p).unwrap().frame_of() == p
                && set.page_table.lookup(p).unwrap().flags_of() == layout.regions()[i].2 | PTE_V,
            r matches Some(set) ==> {
                &&& set.wf()
                &&& set.backed_by(final(memory))
                &&& set.trampoline_frame == trampoline_frame
                &&& set.segment_list@.len() == 5
                &&& forall|i: int| 0 <= i < 5 ==> {
                    let s = #[trigger] set.segment_list@[i];
                    &&& s.map_type == MapType::Identical
                    &&& s.map_permission == layout.regions()[i].2
                    &&& s.page_range.start.bits == page_of_address(layout.regions()[i].0 as int)
                    &&& s.page_range.end.bits == crate::address::ceil_page_of_address(layout.regions()[i].1 as int)
                }
            },
    {
        let mut set = match PageSet::new(trampoline_frame, allocator, memory) {
            Some(set) => set,
            None => return None,
        };
        let ghost s0 = set.segment_list@;
        let ghost avail0 = allocator.available();
        proof {
            lemma_identity_range(layout.text_start, layout.text_end);
            lemma_identity_range(layout.rodata_start, layout.rodata_end);
            lemma_identity_range(layout.data_start, layout.data_end);
            lemma_identity_range(layout.bss_stack_start, layout.bss_end);
            lemma_identity_range(layout.kernel_end, crate::constant::MEM_LIMIT);
            assert(layout.regions()[0] == (layout.text_start, layout.text_end, MAP_R | MAP_X));
            assert(layout.regions()[1] == (layout.rodata_start, layout.rodata_end, MAP_R));
            assert(layout.regions()[2] == (layout.data_start, layout.data_end, MAP_R | MAP_W));
            assert(layout.regions()[3] == (layout.bss_stack_start, layout.bss_end, MAP_R | MAP_W));
            assert(layout.regions()[4] == (layout.kernel_end, crate::constant::MEM_LIMIT, MAP_R | MAP_W));
            if kernel_regions_apart(layout) {
                assert(ranges_disjoint(kernel_range(layout, 0), kernel_range(layout, 1)));
                assert(ranges_disjoint(kernel_range(layout, 0), kernel_range(layout, 2)));
                assert(ranges_disjoint(kernel_range(layout, 0), kernel_range(layout, 3)));
                assert(ranges_disjoint(kernel_range(layout, 0), kernel_range(layout, 4)));
                assert(ranges_disjoint(kernel_range(layout, 1), kernel_range(layout, 2)));
                assert(ranges_disjoint(kernel_range(layout, 1), kernel_range(layout, 3)));
                assert(ranges_disjoint(kernel_range(layout, 1), kernel_range(layout, 4)));
                assert(ranges_disjoint(kernel_range(layout, 2), kernel_range(layout, 3)));
                assert(ranges_disjoint(kernel_range(layout, 2), kernel_range(layout, 4)));
                assert(ranges_disjoint(kernel_range(layout, 3), kernel_range(layout, 4)));
            }
        }
        assert(MAP_R | MAP_X == 10u64 && MAP_R | MAP_W == 6u64) by (bit_vector);
        if !set.push_identical(layout.text_start, layout.text_end, MAP_R | MAP_X, allocator, memory) {
            return None;
        }
        let ghost s1 = set.segment_list@;
        let ghost t1 = set.page_table;
        if !set.push_identical(layout.rodata_start, layout.rodata_end, MAP_R, allocator, memory) {
            return None;
        }
        let ghost s2 = set.segment_list@;
        let ghost t2 = set.page_table;
        if !set.push_identical(layout.data_start, layout.data_end, MAP_R | MAP_W, allocator, memory) {
            return None;
        }
        let ghost s3 = set.segment_list@;
        let ghost t3 = set.page_table;
        if !set.push_identical(layout.bss_stack_start, layout.bss_end, MAP_R | MAP_W, allocator, memory) {
            return None;
        }
        let ghost s4 = set.segment_list@;
        let ghost t4 = set.page_table;
        if !set.push_identical(layout.kernel_end, crate::constant::MEM_LIMIT, MAP_R | MAP_W, allocator, memory) {
            return None;
        }
        proof {
            let s5 = set.segment_list@;
            let t5 = set.page_table;
            assert(s5[0] == s1[0]);
            assert(s5[1] == s2[1]);
            assert(s5[2] == s3[2]);
            assert(s5[3] == s4[3]);
            assert(s2[0] == s1[0] && s3[0] == s1[0] && s4[0] == s1[0]);
            assert(s3[1] == s2[1] && s4[1] == s2[1]);
            assert(s4[2] == s3[2]);
            assert forall|i: int, p: int| 0 <= i < 5 && #[trigger] kernel_range(layout, i).contains(p)
                implies t5.lookup(p) is Some && t5.lookup(p).unwrap().frame_of() == p
                && t5.lookup(p).unwrap().flags_of() == layout.regions()[i].2 | PTE_V by {
                assert(0 <= p < PAGE_NUMBER_LIMIT);
                if i == 0 {
                    assert(ranges_disjoint(s1[0].page_range, kernel_range(layout, 1)));
                    assert(ranges_disjoint(s2[0].page_range, kernel_range(layout, 2)));
                    assert(ranges_disjoint(s3[0].page_range, kernel_range(layout, 3)));
                    assert(ranges_disjoint(s4[0].page_range, kernel_range(layout, 4)));
                    assert(t5.lookup(p) == t1.lookup(p));
                } else if i == 1 {
                    assert(ranges_disjoint(s2[1].page_range, kernel_range(layout, 2)));
                    assert(ranges_disjoint(s3[1].page_range, kernel_range(layout, 3)));
                    assert(ranges_disjoint(s4[1].page_range, kernel_range(layout, 4)));
                    assert(t5.lookup(p) == t2.lookup(p));
                } else if i == 2 {
                    assert(ranges_disjoint(s3[2].page_range, kernel_range(layout, 3)));
                    assert(ranges_disjoint(s4[2].page_range, kernel_range(layout, 4)));
                    assert(t5.lookup(p) == t3.lookup(p));
                } else if i == 3 {
                    assert(ranges_disjoint(s4[3].page_range, kernel_range(layout, 4)));
                    assert(t5.lookup(p) == t4.lookup(p));
                }
            }
        }
        Some(set)
    }
}

impl PageSet {
    /// Drops the space: every segment is unmapped and drops its holds on its frames, and the
    /// frames of the page table go back to the allocator.
    pub fn release(self, allocator: &mut StackFrameAllocator, memory: &mut PhysicalMemory)
        requires
            self.wf(),
            self.backed_by(old(memory)),
            old(allocator).wf(),
            old(memory).wf(),
            old(allocator).backed_by(old(memory)),
        ensures
            final(allocator).wf(),
            final(memory).wf(),
            final(allocator).backed_by(final(memory)),
            final(memory).start == old(memory).start,
            final(memory).frame_count() == old(memory).frame_count(),
    {
        let mut set = self;
        while set.segment_list.len() > 0
            invariant
                set.page_table.wf(),
                forall|i: int| 0 <= i < set.segment_list@.len() ==> {
                    let s = #[trigger] set.segment_list@[i];
                    &&& s.wf()
                    &&& s.complete()
                    &&& s.mapped_in(&set.page_table)
                    &&& s.backed_by(memory)
                },
                forall|i: int, j: int| 0 <= i < j < set.segment_list@.len() ==> ranges_disjoint(
                    set.segment_list@[i].page_range,
                    set.segment_list@[j].page_range,
                ),
                allocator.wf(),
                memory.wf(),
                allocator.backed_by(memory),
                memory.start == old(memory).start,
                memory.frame_count() == old(memory).frame_count(),
            decreases set.segment_list@.len(),
        {
            let ghost before = set.segment_list@;
            let ghost before_memory = *memory;
            let mut segment = match set.segment_list.pop() {
                Some(s) => s,
                None => {
                    assert(false);
                    return;
                },
            };
            let ghost gone = before[before.len() - 1];
            assert(segment == gone);
            segment.unmap_range(&mut set.page_table, allocator, memory);
            proof {
                let list = set.segment_list@;
                assert forall|i: int| 0 <= i < list.len() implies {
                    let s = #[trigger] list[i];
                    &&& s.wf()
                    &&& s.complete()
                    &&& s.mapped_in(&set.page_table)
                    &&& s.backed_by(memory)
                } by {
                    assert(list[i] == before[i]);
                    assert(ranges_disjoint(before[i].page_range, gone.page_range));
                    assert forall|p: int| list[i].page_range.contains(p) implies #[trigger] set.page_table.lookup(p) is Some
                        && list[i].entry_fits(set.page_table.lookup(p).unwrap(), p) by {
                        assert(!gone.page_range.contains(p));
                        assert(0 <= p < PAGE_NUMBER_LIMIT);
                    }
                    assert(before[i].backed_by(&before_memory));
                }
                assert forall|i: int, j: int| 0 <= i < j < list.len() implies ranges_disjoint(
                    list[i].page_range, list[j].page_range) by {
                    assert(list[i] == before[i] && list[j] == before[j]);
                }
            }
        }
        let mut k: usize = 0;
        while k < set.page_table.frame_list.len()
            invariant
                k <= set.page_table.frame_list@.len(),
                allocator.wf(),
                memory.wf(),
                allocator.backed_by(memory),
                memory.start == old(memory).start,
                memory.frame_count() == old(memory).frame_count(),
            decreases set.page_table.frame_list@.len() - k,
        {
            let frame = set.page_table.frame_list[k].frame_number;
            if allocator.owns(frame) && memory.contains_frame(frame) {
                allocator.deallocate(frame);
            }
            k = k + 1;
        }
    }
}

} // verus!
