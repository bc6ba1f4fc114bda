//! Segments: ranges of pages mapped the same way and with the same permissions.
use vstd::prelude::*;

use crate::address::{
    ceil_page_of_address, lemma_floor_le_ceil, page_of_address, FrameNumber, PageNumber,
    PageRange, VirtualAddress, PAGE_NUMBER_LIMIT,
};
use crate::constant::{PAGE_SIZE, TRAMPOLINE};
use crate::frame_allocator::{allocate_frame, StackFrameAllocator};
use crate::memory::PhysicalMemory;
use crate::page_table::{
    has_flag, lemma_add_valid, PageTable, PageTableEntry, PTE_COW, PTE_FLAGS_LIMIT,
    PTE_R, PTE_U, PTE_V, PTE_W, PTE_X,
};

verus! {

/// The page may be read.
pub const MAP_R: u64 = 2;

/// The page may be written.
pub const MAP_W: u64 = 4;

/// The page may be executed.
pub const MAP_X: u64 = 8;

/// The page is reachable from user mode.
pub const MAP_U: u64 = 16;

/// 2^5: the bound of a permission word.
pub const MAP_PERMISSION_LIMIT: u64 = 32;

/// How the pages of a segment find their frames.
#[derive(Copy, Clone, PartialEq, Eq, Structural, Debug)]
pub enum MapType {
    /// Each page maps to the frame with the same number.
    Identical,
    /// Each page maps to a frame of its own, allocated for it.
    Framed,
}

/// The flags of an entry grant what a permission word asks, with copy-on-write standing in for
/// the write bit, and the entry is valid.
pub open spec fn permission_kept(permission: u64, flags: u64) -> bool {
    &&& has_flag(flags, PTE_V)
    &&& has_flag(permission, PTE_R) ==> has_flag(flags, PTE_R)
    &&& has_flag(permission, PTE_X) ==> has_flag(flags, PTE_X)
    &&& has_flag(permission, PTE_U) ==> has_flag(flags, PTE_U)
    &&& has_flag(permission, PTE_W) ==> has_flag(flags, PTE_W) || has_flag(flags, PTE_COW)
}

/// An entry built from a frame number and flags reads them back.
pub proof fn lemma_entry_fields(frame: u64, flags: u64)
    requires
        frame < crate::address::FRAME_NUMBER_LIMIT,
        flags < PTE_FLAGS_LIMIT,
    ensures
        (PageTableEntry { bits: (frame * PTE_FLAGS_LIMIT + flags) as u64 }).frame_of() == frame,
        (PageTableEntry { bits: (frame * PTE_FLAGS_LIMIT + flags) as u64 }).flags_of() == flags,
{
}

/// The `PageSegment` struct is a range of pages with one map type and one permission word. A
/// framed segment records the frame of each of its pages, in page order.
pub struct PageSegment {
    pub page_range: PageRange,
    pub frame_map: Vec<FrameNumber>,
    pub map_type: MapType,
    pub map_permission: u64,
}

impl PageSegment {
    pub open spec fn wf(&self) -> bool {
        &&& self.page_range.wf()
        &&& self.map_permission < MAP_PERMISSION_LIMIT
        &&& self.map_type == MapType::Identical ==> self.frame_map@.len() == 0
        &&& forall|i: int| 0 <= i < self.frame_map@.len() ==> (#[trigger] self.frame_map@[i]).wf()
    }

    /// Every page of a framed segment has its frame.
    pub open spec fn complete(&self) -> bool {
        self.map_type == MapType::Framed ==> self.frame_map@.len() == self.page_range.end.bits
            - self.page_range.start.bits
    }

    /// The frame a page of the segment maps to.
    pub open spec fn frame_of_page(&self, page: int) -> int {
        if self.map_type == MapType::Identical {
            page
        } else {
            self.frame_map@[page - self.page_range.start.bits].bits as int
        }
    }

    /// An entry is the one the segment gives to a page.
    pub open spec fn entry_fits(&self, entry: PageTableEntry, page: int) -> bool {
        &&& entry.frame_of() == self.frame_of_page(page)
        &&& permission_kept(self.map_permission, entry.flags_of())
    }

    /// Every page of the segment is mapped by the table as the segment says.
    pub open spec fn mapped_in(&self, page_table: &PageTable) -> bool {
        forall|p: int|
            self.page_range.contains(p) ==> #[trigger] page_table.lookup(p) is Some
                && self.entry_fits(page_table.lookup(p).unwrap(), p)
    }

    /// The frames of the segment are pairwise distinct.
    pub open spec fn distinct_frames(&self) -> bool {
        forall|i: int, j: int|
            0 <= i < j < self.frame_map@.len() ==> self.frame_map@[i] != self.frame_map@[j]
    }

    /// Every frame of the segment lies in the memory window.
    pub open spec fn backed_by(&self, memory: &PhysicalMemory) -> bool {
        forall|i: int|
            0 <= i < self.frame_map@.len() ==> memory.backs(#[trigger] self.frame_map@[i].bits as int)
    }

    /// Creates an unmapped segment over the pages from the one holding `start_address` up to the
    /// one holding `end_address`, rounded up.
    pub fn new(
        start_address: VirtualAddress,
        end_address: VirtualAddress,
        map_type: MapType,
        map_permission: u64,
    ) -> (r: Self)
        requires
            start_address.wf(),
            end_address.wf(),
            start_address.bits <= end_address.bits <= TRAMPOLINE,
            map_permission < MAP_PERMISSION_LIMIT,
        ensures
            r.wf(),
            r.page_range.start.bits == page_of_address(start_address.bits as int),
            r.page_range.end.bits == ceil_page_of_address(end_address.bits as int),
            r.frame_map@.len() == 0,
            r.map_type == map_type,
            r.map_permission == map_permission,
    {
        proof {
            lemma_floor_le_ceil(start_address.bits as int, end_address.bits as int);
        }
        PageSegment {
            page_range: PageRange::new(start_address.floor(), end_address.ceil()),
            frame_map: Vec::new(),
            map_type,
            map_permission,
        }
    }

    pub fn start(&self) -> (r: PageNumber)
        ensures
            r == self.page_range.start,
    {
        self.page_range.start
    }

    pub fn end(&self) -> (r: PageNumber)
        ensures
            r == self.page_range.end,
    {
        self.page_range.end
    }

    pub fn page_range(&self) -> (r: &PageRange)
        ensures
            *r == self.page_range,
    {
        &self.page_range
    }

    pub fn frame_map(&self) -> (r: &Vec<FrameNumber>)
        ensures
            r@ == self.frame_map@,
    {
        &self.frame_map
    }

    /// Returns `true` if the segment holds the page of a virtual address.
    pub fn contains_address(&self, address: VirtualAddress) -> (r: bool)
        ensures
            r == self.page_range.contains(page_of_address(address.bits as int)),
    {
        let page = address.floor();
        self.page_range.start.bits <= page.bits && page.bits < self.page_range.end.bits
    }

    /// Maps the next page of the segment: for a framed segment a fresh zeroed frame, held once,
    /// for an identical one the frame with the page's number.
    pub fn map_page(
        &mut self,
        page_table: &mut PageTable,
        page_number: PageNumber,
        allocator: &mut StackFrameAllocator,
        memory: &mut PhysicalMemory,
    )
        requires
            old(self).wf(),
            old(page_table).wf(),
            page_number.wf(),
            old(self).page_range.contains(page_number.bits as int),
            old(self).map_type == MapType::Framed ==> page_number.bits == old(self).page_range.start.bits + old(self).frame_map@.len(),
            old(page_table).lookup(page_number.bits as int) is None,
            old(allocator).wf(),
            old(memory).wf(),
            old(allocator).backed_by(old(memory)),
            old(allocator).available() >= data_frames(old(self).map_type, 1) + old(page_table).tables_needed(page_number.bits as int),
        ensures
            final(self).wf(),
            final(page_table).wf(),
            final(allocator).wf(),
            final(memory).wf(),
            final(allocator).backed_by(final(memory)),
            final(allocator).available() == old(allocator).available() - data_frames(old(self).map_type, 1)
                - old(page_table).tables_needed(page_number.bits as int),
            final(self).page_range == old(self).page_range,
            final(self).map_type == old(self).map_type,
            final(self).map_permission == old(self).map_permission,
            final(page_table).root_frame_number == old(page_table).root_frame_number,
            final(memory).start == old(memory).start,
            final(memory).frame_count() == old(memory).frame_count(),
            final(allocator).frame_end == old(allocator).frame_end,
            forall|g: u64| #[trigger]
                old(allocator).is_allocated(g) ==> final(allocator).is_allocated(g),
            forall|g: int|
                old(memory).backs(g) && old(allocator).is_allocated(g as u64) ==> #[trigger] final(memory).bytes(g) == old(memory).bytes(g),
            forall|g: int|
                old(memory).backs(g) && old(allocator).is_allocated(g as u64) ==> #[trigger] final(memory).holder_count(g) == old(memory).holder_count(g),
            old(self).map_type == MapType::Identical ==> final(self).frame_map@ == old(self).frame_map@,
            old(self).map_type == MapType::Framed ==> {
                let f = final(self).frame_map@.last();
                &&& final(self).frame_map@ == old(self).frame_map@.push(f)
                &&& !old(allocator).is_allocated(f.bits)
                &&& final(allocator).is_allocated(f.bits)
                &&& final(memory).backs(f.bits as int)
                &&& final(memory).holder_count(f.bits as int) == 1
                &&& final(memory).bytes(f.bits as int) == Seq::new(PAGE_SIZE as nat, |i: int| 0u8)
            },
            final(page_table).lookup(page_number.bits as int) is Some,
            final(page_table).lookup(page_number.bits as int).unwrap().flags_of() == old(self).map_permission | PTE_V,
            final(self).entry_fits(
                final(page_table).lookup(page_number.bits as int).unwrap(),
                page_number.bits as int,
            ),
            forall|p: int|
                0 <= p < PAGE_NUMBER_LIMIT && p != page_number.bits ==> #[trigger] final(page_table).lookup(p) == old(page_table).lookup(p),
    {
        proof {
            lemma_add_valid(self.map_permission);
        }
        let frame_number = match self.map_type {
            MapType::Identical => FrameNumber { bits: page_number.bits },
            MapType::Framed => {
                let frame = match allocate_frame(allocator, memory) {
                    Some(frame) => frame,
                    None => {
                        assert(false);
                        return;
                    },
                };
                let frame_number = frame.frame_number();
                let ghost zeroed = *memory;
                memory.set_holders(frame_number, 1);
                proof {
                    assert forall|g: int|
                        old(memory).backs(g) && old(allocator).is_allocated(g as u64) implies #[trigger] memory.bytes(g)
                            == old(memory).bytes(g) by {
                        assert(g != frame_number.bits);
                        assert(zeroed.bytes(g) == old(memory).bytes(g));
                        assert(memory.bytes(g) == zeroed.bytes(g));
                    }
                }
                self.frame_map.push(frame_number);
                frame_number
            },
        };
        let ghost mid_allocator = *allocator;
        let ok = page_table.map(page_number, frame_number, self.map_permission, allocator, memory);
        assert(ok);
        proof {
            lemma_entry_fields(frame_number.bits, self.map_permission | PTE_V);
            assert(self.frame_of_page(page_number.bits as int) == frame_number.bits);
            assert forall|g: u64| #[trigger] old(allocator).is_allocated(g) implies allocator.is_allocated(g) by {
                assert(mid_allocator.is_allocated(g));
            }
        }
    }
}

/// The frames a segment of `count` pages takes for its data.
pub open spec fn data_frames(map_type: MapType, count: int) -> int {
    if map_type == MapType::Framed {
        count
    } else {
        0
    }
}

/// The frames that mapping the pages `start .. end` may take: the data frames, and at most two
/// tables for each leaf table that the range touches.
pub open spec fn frame_budget(map_type: MapType, start: int, end: int) -> int {
    if start < end {
        data_frames(map_type, end - start) + 2 * (crate::page_table::leaf_key(end - 1) - crate::page_table::leaf_key(start) + 1)
    } else {
        0
    }
}

/// The part of `bytes` that goes to the `i`-th page of a segment.
pub open spec fn chunk(bytes: Seq<u8>, i: int) -> Seq<u8> {
    let lo = if i * PAGE_SIZE < bytes.len() {
        i * PAGE_SIZE
    } else {
        bytes.len() as int
    };
    let hi = if lo + PAGE_SIZE < bytes.len() {
        lo + PAGE_SIZE
    } else {
        bytes.len() as int
    };
    bytes.subrange(lo, hi)
}

/// A page whose first bytes were overwritten with `prefix`.
pub open spec fn overwritten(page: Seq<u8>, prefix: Seq<u8>) -> Seq<u8> {
    prefix + page.subrange(prefix.len() as int, PAGE_SIZE as int)
}

/// Drops one holder of a frame, and returns the frame to the allocator when it had the last.
pub fn release_frame(
    frame_number: FrameNumber,
    allocator: &mut StackFrameAllocator,
    memory: &mut PhysicalMemory,
)
    requires
        old(allocator).wf(),
        old(memory).wf(),
        old(allocator).backed_by(old(memory)),
        old(memory).backs(frame_number.bits as int),
    ensures
        final(allocator).wf(),
        final(memory).wf(),
        final(allocator).backed_by(final(memory)),
        final(memory).start == old(memory).start,
        final(memory).data@ == old(memory).data@,
        final(memory).holders@ == old(memory).holders@.update(
            frame_number.bits - old(memory).start,
            if old(memory).holder_count(frame_number.bits as int) > 1 {
                (old(memory).holder_count(frame_number.bits as int) - 1) as u64
            } else {
                0
            },
        ),
        old(memory).holder_count(frame_number.bits as int) <= 1 ==> !final(allocator).is_allocated(frame_number.bits),
        forall|g: u64| g != frame_number.bits ==> #[trigger] final(allocator).is_allocated(g) == old(allocator).is_allocated(g),
        final(allocator).frame_start == old(allocator).frame_start,
        final(allocator).frame_end == old(allocator).frame_end,
{
    let count = memory.holders_of(frame_number);
    if count > 1 {
        memory.set_holders(frame_number, count - 1);
    } else {
        memory.set_holders(frame_number, 0);
        if allocator.owns(frame_number) {
            allocator.deallocate(frame_number);
        }
    }
}

impl PageSegment {
    /// Maps every page of an unmapped segment, in page order.
    pub fn map_range(
        &mut self,
        page_table: &mut PageTable,
        allocator: &mut StackFrameAllocator,
        memory: &mut PhysicalMemory,
    )
        requires
            old(self).wf(),
            old(self).frame_map@.len() == 0,
            old(page_table).wf(),
            forall|p: int| old(self).page_range.contains(p) ==> #[trigger] old(page_table).lookup(p) is None,
            old(allocator).wf(),
            old(memory).wf(),
            old(allocator).backed_by(old(memory)),
            old(allocator).available() >= frame_budget(old(self).map_type, old(self).page_range.start.bits as int, old(self).page_range.end.bits as int),
        ensures
            final(self).wf(),
            final(self).complete(),
            final(self).distinct_frames(),
            final(self).backed_by(final(memory)),
            final(self).mapped_in(final(page_table)),
            forall|p: int| final(self).page_range.contains(p) ==> (#[trigger] final(page_table).lookup(p)).unwrap().flags_of()
                == final(self).map_permission | PTE_V,
            final(page_table).wf(),
            final(allocator).wf(),
            final(memory).wf(),
            final(allocator).backed_by(final(memory)),
            final(self).page_range == old(self).page_range,
            final(self).map_type == old(self).map_type,
            final(self).map_permission == old(self).map_permission,
            final(page_table).root_frame_number == old(page_table).root_frame_number,
            final(memory).start == old(memory).start,
            final(memory).frame_count() == old(memory).frame_count(),
            final(allocator).frame_end == old(allocator).frame_end,
            final(allocator).available() >= old(allocator).available() - frame_budget(old(self).map_type,
                old(self).page_range.start.bits as int, old(self).page_range.end.bits as int),
            forall|g: u64| #[trigger] old(allocator).is_allocated(g) ==> final(allocator).is_allocated(g),
            forall|g: int|
                old(memory).backs(g) && old(allocator).is_allocated(g as u64) ==> #[trigger] final(memory).bytes(g) == old(memory).bytes(g),
            forall|g: int|
                old(memory).backs(g) && old(allocator).is_allocated(g as u64) ==> #[trigger] final(memory).holder_count(g) == old(memory).holder_count(g),
            forall|i: int| 0 <= i < final(self).frame_map@.len() ==> {
                let f = #[trigger] final(self).frame_map@[i];
                &&& !old(allocator).is_allocated(f.bits)
                &&& final(allocator).is_allocated(f.bits)
                &&& final(memory).holder_count(f.bits as int) == 1
                &&& final(memory).bytes(f.bits as int) == Seq::new(PAGE_SIZE as nat, |i: int| 0u8)
            },
            forall|p: int|
                0 <= p < PAGE_NUMBER_LIMIT && !old(self).page_range.contains(p) ==> #[trigger] final(page_table).lookup(p) == old(page_table).lookup(p),
    {
        let start = self.page_range.start.bits;
        let end = self.page_range.end.bits;
        let mut current: u64 = start;
        while current < end
            invariant
                start == self.page_range.start.bits,
                end == self.page_range.end.bits,
                start <= current <= end,
                self.wf(),
                page_table.wf(),
                allocator.wf(),
                memory.wf(),
                allocator.backed_by(memory),
                self.page_range == old(self).page_range,
                self.map_type == old(self).map_type,
                self.map_permission == old(self).map_permission,
                page_table.root_frame_number == old(page_table).root_frame_number,
                memory.start == old(memory).start,
                memory.frame_count() == old(memory).frame_count(),
                allocator.frame_end == old(allocator).frame_end,
                current < end ==> allocator.available() >= old(allocator).available() - frame_budget(self.map_type, start as int, end as int)
                    + data_frames(self.map_type, end - current)
                    + 2 * (crate::page_table::leaf_key(end - 1) - crate::page_table::leaf_key(current as int))
                    + page_table.tables_needed(current as int),
                current == end ==> allocator.available() >= old(allocator).available() - frame_budget(self.map_type, start as int, end as int),
                old(allocator).available() >= frame_budget(self.map_type, start as int, end as int),
                self.map_type == MapType::Framed ==> self.frame_map@.len() == current - start,
                self.map_type == MapType::Identical ==> self.frame_map@.len() == 0,
                forall|p: int| start <= p < current ==> #[trigger] page_table.lookup(p) is Some
                    && self.entry_fits(page_table.lookup(p).unwrap(), p)
                    && page_table.lookup(p).unwrap().flags_of() == self.map_permission | PTE_V,
                forall|p: int| current <= p < end ==> #[trigger] page_table.lookup(p) is None,
                forall|p: int|
                    0 <= p < PAGE_NUMBER_LIMIT && !old(self).page_range.contains(p) ==> #[trigger] page_table.lookup(p) == old(page_table).lookup(p),
                forall|g: u64| #[trigger] old(allocator).is_allocated(g) ==> allocator.is_allocated(g),
                forall|g: int|
                    old(memory).backs(g) && old(allocator).is_allocated(g as u64) ==> #[trigger] memory.bytes(g) == old(memory).bytes(g),
                forall|g: int|
                    old(memory).backs(g) && old(allocator).is_allocated(g as u64) ==> #[trigger] memory.holder_count(g) == old(memory).holder_count(g),
                self.distinct_frames(),
                forall|i: int| 0 <= i < self.frame_map@.len() ==> {
                    let f = #[trigger] self.frame_map@[i];
                    &&& !old(allocator).is_allocated(f.bits)
                    &&& allocator.is_allocated(f.bits)
                    &&& memory.backs(f.bits as int)
                    &&& memory.holder_count(f.bits as int) == 1
                    &&& memory.bytes(f.bits as int) == Seq::new(PAGE_SIZE as nat, |i: int| 0u8)
                },
            decreases end - current,
        {
            proof {
                if current == start {
                    crate::page_table::lemma_leaf_key_monotonic(start as int, end - 1);
                }
            }
            let ghost before_self = self.frame_map@;
            let ghost before_allocator = *allocator;
            let ghost before_memory = *memory;
            let ghost before_table = *page_table;
            self.map_page(page_table, PageNumber { bits: current }, allocator, memory);
            proof {
                if current + 1 < end {
                    crate::page_table::lemma_leaf_key_step(current as int);
                    crate::page_table::lemma_leaf_key_monotonic(current + 1, end - 1);
                    crate::page_table::lemma_tables_needed_after(page_table, current as int, current + 1);
                }
                assert forall|p: int| start <= p < current + 1 implies #[trigger] page_table.lookup(p) is Some
                    && self.entry_fits(page_table.lookup(p).unwrap(), p)
                    && page_table.lookup(p).unwrap().flags_of() == self.map_permission | PTE_V by {
                    if p < current {
                        assert(before_table.lookup(p) is Some);
                        if self.map_type == MapType::Framed {
                            assert(self.frame_map@[p - start] == before_self[p - start]);
                        }
                    }
                }
                assert forall|g: u64| #[trigger] old(allocator).is_allocated(g) implies allocator.is_allocated(g) by {
                    assert(before_allocator.is_allocated(g));
                }
                assert forall|g: int|
                    old(memory).backs(g) && old(allocator).is_allocated(g as u64) implies #[trigger] memory.bytes(g) == old(memory).bytes(g) by {
                    assert(before_allocator.is_allocated(g as u64));
                    assert(before_memory.bytes(g) == old(memory).bytes(g));
                }
                assert forall|g: int|
                    old(memory).backs(g) && old(allocator).is_allocated(g as u64) implies #[trigger] memory.holder_count(g) == old(memory).holder_count(g) by {
                    assert(before_allocator.is_allocated(g as u64));
                    assert(before_memory.holder_count(g) == old(memory).holder_count(g));
                }
                if self.map_type == MapType::Framed {
                    let n = before_self.len();
                    let f = self.frame_map@[n as int];
                    assert forall|i: int| 0 <= i < self.frame_map@.len() implies {
                        let h = #[trigger] self.frame_map@[i];
                        &&& !old(allocator).is_allocated(h.bits)
                        &&& allocator.is_allocated(h.bits)
                        &&& memory.backs(h.bits as int)
                        &&& memory.holder_count(h.bits as int) == 1
                        &&& memory.bytes(h.bits as int) == Seq::new(PAGE_SIZE as nat, |i: int| 0u8)
                    } by {
                        if i < n {
                            let h = before_self[i];
                            assert(self.frame_map@[i] == h);
                            assert(before_allocator.is_allocated(h.bits));
                            assert(memory.bytes(h.bits as int) == before_memory.bytes(h.bits as int));
                            assert(memory.holder_count(h.bits as int) == before_memory.holder_count(h.bits as int));
                        } else {
                            assert(!old(allocator).is_allocated(f.bits)) by {
                                if old(allocator).is_allocated(f.bits) {
                                    assert(before_allocator.is_allocated(f.bits));
                                }
                            }
                        }
                    }
                    assert forall|i: int, j: int| 0 <= i < j < self.frame_map@.len() implies self.frame_map@[i] != self.frame_map@[j] by {
                        if j == n {
                            assert(before_allocator.is_allocated(self.frame_map@[i].bits));
                        } else {
                            assert(self.frame_map@[i] == before_self[i]);
                            assert(self.frame_map@[j] == before_self[j]);
                        }
                    }
                }
            }
            current = current + 1;
        }
    }

    /// Clears the entry of a mapped page of the segment, and for a framed segment drops the
    /// segment's hold on the page's frame.
    pub fn unmap_page(
        &mut self,
        page_table: &mut PageTable,
        page_number: PageNumber,
        allocator: &mut StackFrameAllocator,
        memory: &mut PhysicalMemory,
    )
        requires
            old(self).wf(),
            old(self).complete(),
            old(self).backed_by(old(memory)),
            old(page_table).wf(),
            page_number.wf(),
            old(self).page_range.contains(page_number.bits as int),
            old(page_table).lookup(page_number.bits as int) is Some,
            old(allocator).wf(),
            old(memory).wf(),
            old(allocator).backed_by(old(memory)),
        ensures
            *final(self) == *old(self),
            final(page_table).wf(),
            final(allocator).wf(),
            final(memory).wf(),
            final(allocator).backed_by(final(memory)),
            final(memory).start == old(memory).start,
            final(memory).data@ == old(memory).data@,
            final(page_table).lookup(page_number.bits as int) is None,
            final(page_table).root_frame_number == old(page_table).root_frame_number,
            final(page_table).frame_list@ == old(page_table).frame_list@,
            forall|p: int|
                0 <= p < PAGE_NUMBER_LIMIT && p != page_number.bits ==> #[trigger] final(page_table).lookup(p) == old(page_table).lookup(p),
    {
        if self.map_type == MapType::Framed {
            let frame_number = self.frame_map[(page_number.bits - self.page_range.start.bits) as usize];
            release_frame(frame_number, allocator, memory);
        }
        page_table.unmap(page_number);
    }

    /// Clears the entries of every page of a mapped segment and drops its holds on its frames.
    pub fn unmap_range(
        &mut self,
        page_table: &mut PageTable,
        allocator: &mut StackFrameAllocator,
        memory: &mut PhysicalMemory,
    )
        requires
            old(self).wf(),
            old(self).complete(),
            old(self).backed_by(old(memory)),
            old(self).mapped_in(old(page_table)),
            old(page_table).wf(),
            old(allocator).wf(),
            old(memory).wf(),
            old(allocator).backed_by(old(memory)),
        ensures
            final(self).wf(),
            final(self).frame_map@.len() == 0,
            final(self).page_range == old(self).page_range,
            final(self).map_type == old(self).map_type,
            final(self).map_permission == old(self).map_permission,
            final(page_table).wf(),
            final(allocator).wf(),
            final(memory).wf(),
            final(allocator).backed_by(final(memory)),
            final(memory).start == old(memory).start,
            final(memory).data@ == old(memory).data@,
            final(page_table).root_frame_number == old(page_table).root_frame_number,
            final(page_table).frame_list@ == old(page_table).frame_list@,
            forall|p: int| old(self).page_range.contains(p) ==> #[trigger] final(page_table).lookup(p) is None,
            forall|p: int|
                0 <= p < PAGE_NUMBER_LIMIT && !old(self).page_range.contains(p) ==> #[trigger] final(page_table).lookup(p) == old(page_table).lookup(p),
    {
        let start = self.page_range.start.bits;
        let end = self.page_range.end.bits;
        let mut current: u64 = start;
        while current < end
            invariant
                start == self.page_range.start.bits,
                end == self.page_range.end.bits,
                start <= current <= end,
                *self == *old(self),
                self.wf(),
                self.complete(),
                self.backed_by(old(memory)),
                self.mapped_in(old(page_table)),
                page_table.wf(),
                allocator.wf(),
                memory.wf(),
                allocator.backed_by(memory),
                memory.start == old(memory).start,
                memory.data@ == old(memory).data@,
                memory.holders@.len() == old(memory).holders@.len(),
                page_table.root_frame_number == old(page_table).root_frame_number,
                page_table.frame_list@ == old(page_table).frame_list@,
                forall|p: int| start <= p < current ==> #[trigger] page_table.lookup(p) is None,
                forall|p: int|
                    0 <= p < PAGE_NUMBER_LIMIT && !(start <= p < current) ==> #[trigger] page_table.lookup(p) == old(page_table).lookup(p),
            decreases end - current,
        {
            assert(self.page_range.contains(current as int));
            assert(old(page_table).lookup(current as int) is Some);
            self.unmap_page(page_table, PageNumber { bits: current }, allocator, memory);
            current = current + 1;
        }
        self.frame_map.clear();
    }

    /// Copies `bytes` into the first bytes of a framed segment, page after page, finding each
    /// page's frame through the table.
    pub fn clone_bytes(&mut self, page_table: &PageTable, bytes: &[u8], memory: &mut PhysicalMemory)
        requires
            old(self).wf(),
            old(self).complete(),
            old(self).map_type == MapType::Framed,
            old(self).distinct_frames(),
            old(self).backed_by(old(memory)),
            old(self).mapped_in(page_table),
            page_table.wf(),
            old(memory).wf(),
            bytes@.len() <= (old(self).page_range.end.bits - old(self).page_range.start.bits) * PAGE_SIZE,
        ensures
            *final(self) == *old(self),
            final(memory).wf(),
            final(memory).start == old(memory).start,
            final(memory).holders@ == old(memory).holders@,
            final(memory).data@.len() == old(memory).data@.len(),
            forall|i: int| 0 <= i < old(self).frame_map@.len() ==> #[trigger] final(memory).bytes(old(self).frame_map@[i].bits as int)
                == overwritten(old(memory).bytes(old(self).frame_map@[i].bits as int), chunk(bytes@, i)),
            forall|g: int| old(memory).backs(g) && (forall|i: int| 0 <= i < old(self).frame_map@.len() ==> old(self).frame_map@[i].bits != g)
                ==> #[trigger] final(memory).bytes(g) == old(memory).bytes(g),
    {
        let start = self.page_range.start.bits;
        let count = self.page_range.end.bits - start;
        let length = bytes.len();
        let mut index: u64 = 0;
        while index < count
            invariant
                *self == *old(self),
                self.wf(),
                self.distinct_frames(),
                self.mapped_in(page_table),
                self.backed_by(old(memory)),
                page_table.wf(),
                start == self.page_range.start.bits,
                count == self.page_range.end.bits - start,
                count == self.frame_map@.len(),
                length == bytes@.len(),
                index <= count,
                bytes@.len() <= count * PAGE_SIZE,
                memory.wf(),
                memory.start == old(memory).start,
                memory.holders@ == old(memory).holders@,
                memory.data@.len() == old(memory).data@.len(),
                forall|i: int| 0 <= i < index ==> #[trigger] memory.bytes(self.frame_map@[i].bits as int)
                    == overwritten(old(memory).bytes(self.frame_map@[i].bits as int), chunk(bytes@, i)),
                forall|i: int| index <= i < count ==> #[trigger] memory.bytes(self.frame_map@[i].bits as int)
                    == old(memory).bytes(self.frame_map@[i].bits as int),
                forall|g: int| old(memory).backs(g) && (forall|i: int| 0 <= i < self.frame_map@.len() ==> self.frame_map@[i].bits != g)
                    ==> #[trigger] memory.bytes(g) == old(memory).bytes(g),
            decreases count - index,
        {
            let page = PageNumber { bits: start + index };
            assert(self.page_range.contains(page.bits as int));
            let entry = match page_table.translate_page(page) {
                Some(entry) => entry,
                None => {
                    assert(false);
                    return;
                },
            };
            let frame_number = entry.frame_number();
            assert(frame_number == self.frame_map@[index as int]);
            let lo: u64 = if index * PAGE_SIZE < length as u64 {
                index * PAGE_SIZE
            } else {
                length as u64
            };
            let hi: u64 = if lo + PAGE_SIZE < length as u64 {
                lo + PAGE_SIZE
            } else {
                length as u64
            };
            let source = vstd::slice::slice_subrange(bytes, lo as usize, hi as usize);
            let ghost before = *memory;
            memory.write_bytes(frame_number, 0, source);
            proof {
                let f = frame_number.bits as int;
                assert(source@ == chunk(bytes@, index as int));
                assert(memory.bytes(f) =~= overwritten(old(memory).bytes(f), chunk(bytes@, index as int)));
                assert forall|i: int| 0 <= i < index + 1 implies #[trigger] memory.bytes(self.frame_map@[i].bits as int)
                    == overwritten(old(memory).bytes(self.frame_map@[i].bits as int), chunk(bytes@, i)) by {
                    if i < index {
                        assert(self.frame_map@[i] != self.frame_map@[index as int]);
                        assert(memory.bytes(self.frame_map@[i].bits as int) == before.bytes(self.frame_map@[i].bits as int));
                    }
                }
                assert forall|i: int| index + 1 <= i < count implies #[trigger] memory.bytes(self.frame_map@[i].bits as int)
                    == old(memory).bytes(self.frame_map@[i].bits as int) by {
                    assert(self.frame_map@[i] != self.frame_map@[index as int]);
                    assert(memory.bytes(self.frame_map@[i].bits as int) == before.bytes(self.frame_map@[i].bits as int));
                }
                assert forall|g: int| old(memory).backs(g) && (forall|i: int| 0 <= i < self.frame_map@.len() ==> self.frame_map@[i].bits != g)
                    implies #[trigger] memory.bytes(g) == old(memory).bytes(g) by {
                    assert(self.frame_map@[index as int].bits != g);
                    assert(memory.bytes(g) == before.bytes(g));
                }
            }
            index = index + 1;
        }
    }
}

} // verus!
