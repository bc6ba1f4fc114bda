//! The three-level Sv39 page table and its entries.
//!
//! The table keeps the contents of its own frames: the 512 entries of the root table, and the 512
//! entries of each middle and leaf table, with the index path that leads to each of them. The
//! entries that lead to a lower table hold that table's frame number, as the hardware reads them.
use vstd::prelude::*;

use crate::address::{
    page_indexes, page_of_address, FrameNumber, PageNumber, PhysicalAddress, VirtualAddress,
    FRAME_NUMBER_LIMIT, PAGE_NUMBER_LIMIT,
};
use crate::constant::PAGE_SIZE;
use crate::frame_allocator::{allocate_frame, FrameTracker, StackFrameAllocator};
use crate::memory::PhysicalMemory;

verus! {

/// The entry is valid.
pub const PTE_V: u64 = 1;

/// The page may be read.
pub const PTE_R: u64 = 2;

/// The page may be written.
pub const PTE_W: u64 = 4;

/// The page may be executed.
pub const PTE_X: u64 = 8;

/// The page is reachable from user mode.
pub const PTE_U: u64 = 16;

/// The mapping is global.
pub const PTE_G: u64 = 32;

/// The page was accessed.
pub const PTE_A: u64 = 64;

/// The page was written.
pub const PTE_D: u64 = 128;

/// Software bit: the page is shared copy-on-write.
pub const PTE_COW: u64 = 256;

/// 2^10: the bound of the flag bits of an entry.
pub const PTE_FLAGS_LIMIT: u64 = 1024;

/// The value of the mode field of `satp` that selects Sv39.
pub const SATP_SV39: u64 = 0x8000_0000_0000_0000;

/// Whether a flag word holds a flag.
pub open spec fn has_flag(flags: u64, flag: u64) -> bool {
    flags & flag != 0
}

/// The `PageTableEntry` struct is a 64-bit Sv39 entry: the frame number in bits 10..54, the
/// flags in bits 0..10.
#[derive(Copy, Clone, PartialEq, Eq, Structural, Debug)]
pub struct PageTableEntry {
    pub bits: u64,
}

impl PageTableEntry {
    pub open spec fn frame_of(self) -> u64 {
        ((self.bits / PTE_FLAGS_LIMIT) % FRAME_NUMBER_LIMIT) as u64
    }

    pub open spec fn flags_of(self) -> u64 {
        (self.bits % PTE_FLAGS_LIMIT) as u64
    }

    pub open spec fn valid(self) -> bool {
        has_flag(self.flags_of(), PTE_V)
    }

    /// Packs a frame number and flags into an entry.
    pub fn new(frame_number: FrameNumber, flags: u64) -> (r: Self)
        requires
            frame_number.wf(),
            flags < PTE_FLAGS_LIMIT,
        ensures
            r.bits == frame_number.bits * PTE_FLAGS_LIMIT + flags,
            r.frame_of() == frame_number.bits,
            r.flags_of() == flags,
    {
        PageTableEntry { bits: frame_number.bits * PTE_FLAGS_LIMIT + flags }
    }

    /// The entry with every bit clear.
    pub fn empty() -> (r: Self)
        ensures
            r.bits == 0,
            !r.valid(),
    {
        let r = PageTableEntry { bits: 0 };
        assert(0u64 & 1u64 == 0) by (bit_vector);
        r
    }

    pub fn frame_number(&self) -> (r: FrameNumber)
        ensures
            r.bits == self.frame_of(),
            r.wf(),
    {
        FrameNumber { bits: (self.bits / PTE_FLAGS_LIMIT) % FRAME_NUMBER_LIMIT }
    }

    pub fn flags(&self) -> (r: u64)
        ensures
            r == self.flags_of(),
            r < PTE_FLAGS_LIMIT,
    {
        self.bits % PTE_FLAGS_LIMIT
    }

    pub fn is_valid(&self) -> (r: bool)
        ensures
            r == has_flag(self.flags_of(), PTE_V),
    {
        self.flags() & PTE_V != 0
    }

    pub fn is_readable(&self) -> (r: bool)
        ensures
            r == has_flag(self.flags_of(), PTE_R),
    {
        self.flags() & PTE_R != 0
    }

    pub fn is_writable(&self) -> (r: bool)
        ensures
            r == has_flag(self.flags_of(), PTE_W),
    {
        self.flags() & PTE_W != 0
    }

    pub fn is_executable(&self) -> (r: bool)
        ensures
            r == has_flag(self.flags_of(), PTE_X),
    {
        self.flags() & PTE_X != 0
    }

    pub fn is_cow(&self) -> (r: bool)
        ensures
            r == has_flag(self.flags_of(), PTE_COW),
    {
        self.flags() & PTE_COW != 0
    }
}

/// Adding the valid bit to flags below 2^10 keeps them below 2^10, keeps every other bit, and
/// sets the valid bit.
pub proof fn lemma_add_valid(flags: u64)
    requires
        flags < PTE_FLAGS_LIMIT,
    ensures
        flags | PTE_V < PTE_FLAGS_LIMIT,
        has_flag(flags | PTE_V, PTE_V),
        forall|f: u64|
            f == PTE_R || f == PTE_W || f == PTE_X || f == PTE_U || f == PTE_COW ==> (has_flag(
                #[trigger] (flags | PTE_V),
                f,
            ) == has_flag(flags, f)),
{
    assert(flags < 1024u64 ==> (flags | 1u64) < 1024u64) by (bit_vector);
    assert((flags | 1u64) & 1u64 != 0) by (bit_vector);
    assert(((flags | 1u64) & 2u64 != 0) == (flags & 2u64 != 0)) by (bit_vector);
    assert(((flags | 1u64) & 4u64 != 0) == (flags & 4u64 != 0)) by (bit_vector);
    assert(((flags | 1u64) & 8u64 != 0) == (flags & 8u64 != 0)) by (bit_vector);
    assert(((flags | 1u64) & 16u64 != 0) == (flags & 16u64 != 0)) by (bit_vector);
    assert(((flags | 1u64) & 256u64 != 0) == (flags & 256u64 != 0)) by (bit_vector);
}

/// The root index of a page: the key of its middle table.
pub open spec fn middle_key(page: int) -> int {
    page / 262144
}

/// The index of a page's entry in its middle table.
pub open spec fn middle_slot(page: int) -> int {
    (page / 512) % 512
}

/// The root and middle indexes of a page together: the key of its leaf table.
pub open spec fn leaf_key(page: int) -> int {
    page / 512
}

/// The index of a page's entry in its leaf table.
pub open spec fn leaf_slot(page: int) -> int {
    page % 512
}

/// Leaf keys do not decrease.
pub proof fn lemma_leaf_key_monotonic(a: int, b: int)
    requires
        0 <= a <= b,
    ensures
        leaf_key(a) <= leaf_key(b),
{
    vstd::arithmetic::div_mod::lemma_div_is_ordered(a, b, 512);
}

/// The next page has the same leaf key or the next one.
pub proof fn lemma_leaf_key_step(a: int)
    requires
        0 <= a,
    ensures
        leaf_key(a + 1) == leaf_key(a) || leaf_key(a + 1) == leaf_key(a) + 1,
{
}

/// Once a page has a translation, no page under the same leaf table needs a new table.
pub proof fn lemma_tables_needed_after(table: &PageTable, mapped: int, page: int)
    requires
        table.lookup(mapped) is Some,
        0 <= mapped,
        0 <= page,
        leaf_key(page) == leaf_key(mapped) ==> true,
    ensures
        leaf_key(page) == leaf_key(mapped) ==> table.tables_needed(page) == 0,
        table.tables_needed(page) <= 2,
{
    if leaf_key(page) == leaf_key(mapped) {
        assert(middle_key(page) == leaf_key(page) / 512) by {
            vstd::arithmetic::div_mod::lemma_div_denominator(page, 512, 512);
        }
        assert(middle_key(mapped) == leaf_key(mapped) / 512) by {
            vstd::arithmetic::div_mod::lemma_div_denominator(mapped, 512, 512);
        }
    }
}

/// The keys of a sequence are pairwise distinct.
pub open spec fn unique_keys(keys: Seq<u64>) -> bool {
    forall|i: int, j: int| 0 <= i < j < keys.len() ==> keys[i] != keys[j]
}

/// The position of a key in a sequence of keys.
pub open spec fn key_index(keys: Seq<u64>, key: int) -> int {
    choose|i: int| 0 <= i < keys.len() && keys[i] == key
}

/// The key paths of a page agree with its three table indexes.
pub proof fn lemma_page_keys(page: int)
    requires
        0 <= page < PAGE_NUMBER_LIMIT,
    ensures
        page_indexes(page) == (middle_key(page), middle_slot(page), leaf_slot(page)),
        leaf_key(page) == middle_key(page) * 512 + middle_slot(page),
        0 <= middle_key(page) < 512,
        0 <= leaf_key(page) < 262144,
        page == leaf_key(page) * 512 + leaf_slot(page),
{
    vstd::arithmetic::div_mod::lemma_div_denominator(page, 512, 512);
    assert(page / 512 == (page / 512 / 512) * 512 + (page / 512) % 512) by {
        vstd::arithmetic::div_mod::lemma_fundamental_div_mod(page / 512, 512);
    }
    assert(page == (page / 512) * 512 + page % 512) by {
        vstd::arithmetic::div_mod::lemma_fundamental_div_mod(page, 512);
    }
}

/// In a sequence of distinct keys, a position that holds a key is the position of that key.
pub proof fn lemma_key_index(keys: Seq<u64>, i: int)
    requires
        unique_keys(keys),
        0 <= i < keys.len(),
    ensures
        key_index(keys, keys[i] as int) == i,
{
    let j = key_index(keys, keys[i] as int);
    assert(0 <= j < keys.len() && keys[j] == keys[i]);
}

/// Returns the position of a key, or `None` when no position holds it.
fn find_key(keys: &Vec<u64>, key: u64) -> (r: Option<usize>)
    requires
        unique_keys(keys@),
    ensures
        r is None <==> !keys@.contains(key),
        r matches Some(i) ==> i < keys@.len() && keys@[i as int] == key && key_index(
            keys@,
            key as int,
        ) == i,
{
    let mut i: usize = 0;
    while i < keys.len()
        invariant
            i <= keys@.len(),
            unique_keys(keys@),
            forall|j: int| 0 <= j < i ==> keys@[j] != key,
        decreases keys@.len() - i,
    {
        if keys[i] == key {
            proof {
                lemma_key_index(keys@, i as int);
            }
            return Some(i);
        }
        i = i + 1;
    }
    None
}

/// Appends the 512 entries of an empty table.
fn push_empty_table(entries: &mut Vec<PageTableEntry>)
    ensures
        final(entries)@.len() == old(entries)@.len() + 512,
        forall|j: int| 0 <= j < old(entries)@.len() ==> #[trigger] final(entries)@[j] == old(entries)@[j],
        forall|j: int|
            old(entries)@.len() <= j < old(entries)@.len() + 512 ==> !(#[trigger] final(entries)@[j]).valid(),
{
    let mut i: usize = 0;
    while i < 512
        invariant
            i <= 512,
            entries@.len() == old(entries)@.len() + i,
            forall|j: int| 0 <= j < old(entries)@.len() ==> #[trigger] entries@[j] == old(entries)@[j],
            forall|j: int|
                old(entries)@.len() <= j < old(entries)@.len() + i ==> !(#[trigger] entries@[j]).valid(),
        decreases 512 - i,
    {
        entries.push(PageTableEntry::empty());
        i = i + 1;
    }
}

/// The `PageTable` struct is a three-level Sv39 page table that owns the frames of its tables.
pub struct PageTable {
    pub root_frame_number: FrameNumber,
    pub frame_list: Vec<FrameTracker>,
    pub root: Vec<PageTableEntry>,
    pub middle_keys: Vec<u64>,
    pub middle: Vec<PageTableEntry>,
    pub leaf_keys: Vec<u64>,
    pub leaf: Vec<PageTableEntry>,
}

impl PageTable {
    pub open spec fn wf(&self) -> bool {
        &&& self.root_frame_number.wf()
        &&& self.root@.len() == 512
        &&& self.middle@.len() == 512 * self.middle_keys@.len()
        &&& self.leaf@.len() == 512 * self.leaf_keys@.len()
        &&& unique_keys(self.middle_keys@)
        &&& unique_keys(self.leaf_keys@)
        &&& forall|m: int|
            0 <= m < self.middle_keys@.len() ==> #[trigger] self.middle_keys@[m] < 512
                && self.root@[self.middle_keys@[m] as int].valid()
        &&& forall|l: int|
            0 <= l < self.leaf_keys@.len() ==> #[trigger] self.leaf_keys@[l] < 262144
                && self.middle_keys@.contains((self.leaf_keys@[l] / 512) as u64) && self.middle@[512
                * key_index(self.middle_keys@, (self.leaf_keys@[l] / 512) as int) + self.leaf_keys@[l]
                % 512].valid()
    }

    /// What a walk from the root finds for a page: the valid leaf entry, or `None`.
    pub open spec fn lookup(&self, page: int) -> Option<PageTableEntry> {
        if !self.root@[middle_key(page)].valid() || !self.middle_keys@.contains(
            middle_key(page) as u64,
        ) {
            None
        } else {
            let m = key_index(self.middle_keys@, middle_key(page));
            if !self.middle@[512 * m + middle_slot(page)].valid() || !self.leaf_keys@.contains(
                leaf_key(page) as u64,
            ) {
                None
            } else {
                let l = key_index(self.leaf_keys@, leaf_key(page));
                let e = self.leaf@[512 * l + leaf_slot(page)];
                if e.valid() {
                    Some(e)
                } else {
                    None
                }
            }
        }
    }

    /// How many new tables a map of the page needs.
    pub open spec fn tables_needed(&self, page: int) -> int {
        if !self.middle_keys@.contains(middle_key(page) as u64) {
            2
        } else if !self.leaf_keys@.contains(leaf_key(page) as u64) {
            1
        } else {
            0
        }
    }

    /// Creates a table with an empty root, or `None` when no frame is left.
    pub fn new(allocator: &mut StackFrameAllocator, memory: &mut PhysicalMemory) -> (r: Option<
        Self,
    >)
        requires
            old(allocator).wf(),
            old(memory).wf(),
            old(allocator).backed_by(old(memory)),
        ensures
            final(allocator).wf(),
            final(memory).wf(),
            final(allocator).backed_by(final(memory)),
            frames_kept(old(allocator), final(allocator), old(memory), final(memory)),
            r is None <==> old(allocator).available() == 0,
            r is Some ==> final(allocator).available() == old(allocator).available() - 1,
            r matches Some(t) ==> t.wf() && t.middle_keys@.len() == 0 && t.leaf_keys@.len() == 0
                && forall|p: int| #[trigger] t.lookup(p) is None,
    {
        match allocate_frame(allocator, memory) {
            None => None,
            Some(frame) => {
                let root_frame_number = frame.frame_number();
                let mut root: Vec<PageTableEntry> = Vec::new();
                push_empty_table(&mut root);
                let mut frame_list: Vec<FrameTracker> = Vec::new();
                frame_list.push(frame);
                let t = PageTable {
                    root_frame_number,
                    frame_list,
                    root,
                    middle_keys: Vec::new(),
                    middle: Vec::new(),
                    leaf_keys: Vec::new(),
                    leaf: Vec::new(),
                };
                assert forall|p: int| #[trigger] t.lookup(p) is None by {
                    assert(!t.middle_keys@.contains(middle_key(p) as u64));
                }
                Some(t)
            },
        }
    }

    /// Returns the value of `satp` that selects this table in Sv39 mode.
    pub fn satp(&self) -> (r: u64)
        requires
            self.wf(),
        ensures
            r == SATP_SV39 + self.root_frame_number.bits,
    {
        SATP_SV39 + self.root_frame_number.bits
    }

    /// Returns the valid leaf entry of a page, or `None`.
    pub fn translate_page(&self, page_number: PageNumber) -> (r: Option<PageTableEntry>)
        requires
            self.wf(),
            page_number.wf(),
        ensures
            r == self.lookup(page_number.bits as int),
    {
        let index = page_number.index();
        proof {
            lemma_page_keys(page_number.bits as int);
        }
        let root_entry = self.root[index[0] as usize];
        if !root_entry.is_valid() {
            return None;
        }
        let m = match find_key(&self.middle_keys, index[0] as u64) {
            None => return None,
            Some(m) => m,
        };
        assert(self.middle_keys@.len() * 512 == self.middle.len());
        let middle_entry = self.middle[512 * m + index[1] as usize];
        if !middle_entry.is_valid() {
            return None;
        }
        let l = match find_key(&self.leaf_keys, page_number.bits / 512) {
            None => return None,
            Some(l) => l,
        };
        assert(self.leaf_keys@.len() * 512 == self.leaf.len());
        let entry = self.leaf[512 * l + index[2] as usize];
        if entry.is_valid() {
            Some(entry)
        } else {
            None
        }
    }

    /// Returns the physical address that a virtual address maps to, or `None`.
    pub fn translate(&self, virtual_address: VirtualAddress) -> (r: Option<PhysicalAddress>)
        requires
            self.wf(),
        ensures
            r is Some <==> self.lookup(page_of_address(virtual_address.bits as int)) is Some,
            r matches Some(a) ==> a.bits == self.lookup(
                page_of_address(virtual_address.bits as int),
            ).unwrap().frame_of() * PAGE_SIZE + virtual_address.bits % PAGE_SIZE,
    {
        let page_number = virtual_address.floor();
        match self.translate_page(page_number) {
            None => None,
            Some(entry) => {
                let base = PhysicalAddress::from_frame(entry.frame_number());
                Some(PhysicalAddress { bits: base.bits + virtual_address.page_offset() })
            },
        }
    }
}

impl PageTable {
    /// Whether the walk for a page reaches a leaf entry, valid or not.
    pub open spec fn has_path(&self, page: int) -> bool {
        &&& self.root@[middle_key(page)].valid()
        &&& self.middle_keys@.contains(middle_key(page) as u64)
        &&& self.middle@[512 * key_index(self.middle_keys@, middle_key(page)) + middle_slot(
            page,
        )].valid()
        &&& self.leaf_keys@.contains(leaf_key(page) as u64)
    }

    /// Where the leaf entry of a page with a path lies.
    pub open spec fn leaf_position(&self, page: int) -> int {
        512 * key_index(self.leaf_keys@, leaf_key(page)) + leaf_slot(page)
    }

    /// Returns the position of the middle table of root index `i0`, which it creates, with a
    /// valid root entry, when missing. No page changes its translation.
    fn ensure_middle(
        &mut self,
        i0: u64,
        allocator: &mut StackFrameAllocator,
        memory: &mut PhysicalMemory,
    ) -> (r: usize)
        requires
            old(self).wf(),
            i0 < 512,
            old(allocator).wf(),
            old(memory).wf(),
            old(allocator).backed_by(old(memory)),
            old(self).middle_keys@.contains(i0) || old(allocator).available() >= 1,
        ensures
            final(self).wf(),
            final(allocator).wf(),
            final(memory).wf(),
            final(allocator).backed_by(final(memory)),
            frames_kept(old(allocator), final(allocator), old(memory), final(memory)),
            forall|p: int| 0 <= p < PAGE_NUMBER_LIMIT ==> #[trigger] final(self).lookup(p) == old(self).lookup(p),
            final(self).middle_keys@.contains(i0),
            old(self).middle_keys@.contains(i0) ==> final(self).frame_list@ == old(self).frame_list@,
            !old(self).middle_keys@.contains(i0) ==> final(self).frame_list@.len() == old(self).frame_list@.len() + 1
                && final(self).frame_list@.subrange(0, old(self).frame_list@.len() as int) == old(self).frame_list@,
            r < final(self).middle_keys@.len(),
            final(self).middle_keys@[r as int] == i0,
            key_index(final(self).middle_keys@, i0 as int) == r,
            final(self).root_frame_number == old(self).root_frame_number,
            final(self).leaf_keys@ == old(self).leaf_keys@,
            final(self).leaf@ == old(self).leaf@,
            final(self).root@[i0 as int].valid(),
            forall|p: int| 0 <= p < PAGE_NUMBER_LIMIT && #[trigger] old(self).has_path(p) ==> final(self).has_path(p)
                && final(self).leaf_position(p) == old(self).leaf_position(p),
            old(self).middle_keys@.contains(i0) ==> final(allocator).available()
                == old(allocator).available(),
            !old(self).middle_keys@.contains(i0) ==> final(allocator).available()
                == old(allocator).available() - 1,
    {
        match find_key(&self.middle_keys, i0) {
            Some(m) => m,
            None => {
                let frame = match allocate_frame(allocator, memory) {
                    Some(frame) => frame,
                    None => {
                        assert(false);
                        return 0;
                    },
                };
                let ghost old_keys = self.middle_keys@;
                let entry = PageTableEntry::new(frame.frame_number(), PTE_V);
                assert(1u64 & 1u64 != 0) by (bit_vector);
                self.root.set(i0 as usize, entry);
                self.frame_list.push(frame);
                let m = self.middle_keys.len();
                self.middle_keys.push(i0);
                push_empty_table(&mut self.middle);
                proof {
                    let keys = self.middle_keys@;
                    assert(keys == old_keys.push(i0));
                    assert(unique_keys(keys)) by {
                        assert forall|a: int, b: int| 0 <= a < b < keys.len() implies keys[a] != keys[b] by {
                            if b == keys.len() - 1 {
                                if keys[a] == i0 {
                                    assert(old_keys[a] == i0);
                                    assert(old_keys.contains(i0));
                                }
                            }
                        }
                    }
                    lemma_key_index(keys, m as int);
                    assert forall|k: int| 0 <= k < old_keys.len() implies key_index(keys, old_keys[k] as int) == k by {
                        lemma_key_index(keys, k);
                        lemma_key_index(old_keys, k);
                    }
                    assert forall|k: int| 0 <= k < old_keys.len() implies key_index(old_keys, old_keys[k] as int) == k by {
                        lemma_key_index(old_keys, k);
                    }
                    assert forall|k: u64| #[trigger] old_keys.contains(k) implies keys.contains(k) && key_index(keys, k as int) == key_index(old_keys, k as int) by {
                        let w = choose|w: int| 0 <= w < old_keys.len() && old_keys[w] == k;
                        lemma_key_index(keys, w);
                        lemma_key_index(old_keys, w);
                        assert(keys[w] == k);
                    }
                    assert forall|k: u64| keys.contains(k) && k != i0 implies #[trigger] old_keys.contains(k) by {
                        let w = choose|w: int| 0 <= w < keys.len() && keys[w] == k;
                        assert(old_keys[w] == k);
                    }
                    assert forall|mm: int| 0 <= mm < keys.len() implies #[trigger] keys[mm] < 512
                        && self.root@[keys[mm] as int].valid() by {
                        if mm < old_keys.len() {
                            assert(old_keys[mm] == keys[mm]);
                        }
                    }
                    assert forall|l: int| 0 <= l < self.leaf_keys@.len() implies #[trigger] self.leaf_keys@[l] < 262144
                        && self.middle_keys@.contains((self.leaf_keys@[l] / 512) as u64) && self.middle@[512
                        * key_index(self.middle_keys@, (self.leaf_keys@[l] / 512) as int) + self.leaf_keys@[l]
                        % 512].valid() by {
                        let k = (self.leaf_keys@[l] / 512) as u64;
                        assert(old(self).middle_keys@.contains(k));
                        let w = key_index(old_keys, k as int);
                        assert(0 <= w < old_keys.len() && old_keys[w] == k);
                    }
                    assert forall|p: int| 0 <= p < PAGE_NUMBER_LIMIT implies #[trigger] self.lookup(p) == old(self).lookup(p) by {
                        let k = middle_key(p);
                        lemma_page_keys(p);
                        if k != i0 {
                            if old_keys.contains(k as u64) {
                                let w = key_index(old_keys, k);
                                assert(0 <= w < old_keys.len() && old_keys[w] == k);
                                assert(512 * w + middle_slot(p) < 512 * m);
                            }
                        } else {
                            assert(keys[m as int] == i0);
                            assert(!self.middle@[512 * m + middle_slot(p)].valid());
                        }
                    }
                    assert forall|p: int| 0 <= p < PAGE_NUMBER_LIMIT && #[trigger] old(self).has_path(p) implies self.has_path(p)
                        && self.leaf_position(p) == old(self).leaf_position(p) by {
                        let k = middle_key(p);
                        lemma_page_keys(p);
                        let w0 = choose|w: int| 0 <= w < old_keys.len() && old_keys[w] == k as u64;
                        lemma_key_index(old_keys, w0);
                        let w = key_index(old_keys, k);
                        assert(0 <= w < old_keys.len() && old_keys[w] == k);
                        assert(k != i0);
                        assert(512 * w + middle_slot(p) < 512 * m) by {
                            assert(0 <= middle_slot(p) < 512);
                        }
                    }
                }
                m
            },
        }
    }
}

impl PageTable {
    /// Returns the position of the leaf table of a page, which it creates, with a valid middle
    /// entry, when missing. No page changes its translation.
    fn ensure_leaf(
        &mut self,
        page_number: PageNumber,
        m: usize,
        allocator: &mut StackFrameAllocator,
        memory: &mut PhysicalMemory,
    ) -> (r: usize)
        requires
            old(self).wf(),
            page_number.wf(),
            old(self).root@[middle_key(page_number.bits as int)].valid(),
            old(self).middle_keys@.contains(middle_key(page_number.bits as int) as u64),
            m < old(self).middle_keys@.len(),
            old(self).middle_keys@[m as int] == middle_key(page_number.bits as int),
            key_index(old(self).middle_keys@, middle_key(page_number.bits as int)) == m,
            old(allocator).wf(),
            old(memory).wf(),
            old(allocator).backed_by(old(memory)),
            old(self).leaf_keys@.contains(leaf_key(page_number.bits as int) as u64)
                || old(allocator).available() >= 1,
        ensures
            final(self).wf(),
            final(allocator).wf(),
            final(memory).wf(),
            final(allocator).backed_by(final(memory)),
            frames_kept(old(allocator), final(allocator), old(memory), final(memory)),
            forall|p: int| 0 <= p < PAGE_NUMBER_LIMIT ==> #[trigger] final(self).lookup(p) == old(self).lookup(p),
            final(self).has_path(page_number.bits as int),
            old(self).leaf_keys@.contains(leaf_key(page_number.bits as int) as u64) ==> final(self).frame_list@ == old(self).frame_list@,
            !old(self).leaf_keys@.contains(leaf_key(page_number.bits as int) as u64) ==> final(self).frame_list@.len()
                == old(self).frame_list@.len() + 1
                && final(self).frame_list@.subrange(0, old(self).frame_list@.len() as int) == old(self).frame_list@,
            r < final(self).leaf_keys@.len(),
            key_index(final(self).leaf_keys@, leaf_key(page_number.bits as int)) == r,
            final(self).root_frame_number == old(self).root_frame_number,
            forall|p: int| 0 <= p < PAGE_NUMBER_LIMIT && #[trigger] old(self).has_path(p) ==> final(self).has_path(p)
                && final(self).leaf_position(p) == old(self).leaf_position(p),
            old(self).leaf_keys@.contains(leaf_key(page_number.bits as int) as u64)
                ==> final(allocator).available() == old(allocator).available(),
            !old(self).leaf_keys@.contains(leaf_key(page_number.bits as int) as u64)
                ==> final(allocator).available() == old(allocator).available() - 1,
    {
        let ghost page = page_number.bits as int;
        proof {
            lemma_page_keys(page);
        }
        let key = page_number.bits / 512;
        let slot = (page_number.bits / 512) % 512;
        match find_key(&self.leaf_keys, key) {
            Some(l) => {
                proof {
                    let k = self.leaf_keys@[l as int];
                    assert(self.middle_keys@.contains((k / 512) as u64));
                    assert(k / 512 == middle_key(page));
                }
                l
            },
            None => {
                let frame = match allocate_frame(allocator, memory) {
                    Some(frame) => frame,
                    None => {
                        assert(false);
                        return 0;
                    },
                };
                let ghost old_keys = self.leaf_keys@;
                let entry = PageTableEntry::new(frame.frame_number(), PTE_V);
                assert(1u64 & 1u64 != 0) by (bit_vector);
                assert(self.middle_keys@.len() * 512 == self.middle.len());
                let position = 512 * m + slot as usize;
                self.middle.set(position, entry);
                self.frame_list.push(frame);
                let l = self.leaf_keys.len();
                self.leaf_keys.push(key);
                push_empty_table(&mut self.leaf);
                proof {
                    let keys = self.leaf_keys@;
                    let mkeys = self.middle_keys@;
                    assert(keys == old_keys.push(key));
                    assert(unique_keys(keys)) by {
                        assert forall|a: int, b: int| 0 <= a < b < keys.len() implies keys[a] != keys[b] by {
                            if b == keys.len() - 1 {
                                if keys[a] == key {
                                    assert(old_keys[a] == key);
                                    assert(old_keys.contains(key));
                                }
                            }
                        }
                    }
                    lemma_key_index(keys, l as int);
                    assert forall|k: u64| #[trigger] old_keys.contains(k) implies keys.contains(k) && key_index(keys, k as int) == key_index(old_keys, k as int) by {
                        let w = choose|w: int| 0 <= w < old_keys.len() && old_keys[w] == k;
                        lemma_key_index(keys, w);
                        lemma_key_index(old_keys, w);
                        assert(keys[w] == k);
                    }
                    assert forall|k: u64| keys.contains(k) && k != key implies #[trigger] old_keys.contains(k) by {
                        let w = choose|w: int| 0 <= w < keys.len() && keys[w] == k;
                        assert(old_keys[w] == k);
                    }
                    // the middle entry that changed belongs to the new leaf key alone
                    assert forall|mm: int, ss: int| 0 <= mm < mkeys.len() && 0 <= ss < 512
                        && #[trigger] (512 * mm + ss) == position implies mm == m && ss == slot by {
                    }
                    assert forall|ll: int| 0 <= ll < keys.len() implies #[trigger] keys[ll] < 262144
                        && mkeys.contains((keys[ll] / 512) as u64) && self.middle@[512
                        * key_index(mkeys, (keys[ll] / 512) as int) + keys[ll] % 512].valid() by {
                        if ll < old_keys.len() {
                            let k = old_keys[ll];
                            assert(keys[ll] == k);
                            let mk = (k / 512) as u64;
                            assert(mkeys.contains(mk));
                            let w = key_index(mkeys, mk as int);
                            assert(0 <= w < mkeys.len() && mkeys[w] == mk);
                            if 512 * w + k % 512 == position {
                                assert(w == m);
                                assert(k == key);
                                assert(old_keys.contains(key));
                            }
                        } else {
                            assert(keys[ll] == key);
                            assert(key / 512 == middle_key(page));
                            assert(key % 512 == slot);
                        }
                    }
                    assert forall|p: int| 0 <= p < PAGE_NUMBER_LIMIT implies #[trigger] self.lookup(p) == old(self).lookup(p) by {
                        lemma_page_keys(p);
                        let mk = middle_key(p);
                        if old(self).root@[mk].valid() && mkeys.contains(mk as u64) {
                            let w0 = choose|w: int| 0 <= w < mkeys.len() && mkeys[w] == mk as u64;
                            lemma_key_index(mkeys, w0);
                            let w = key_index(mkeys, mk);
                            assert(0 <= w < mkeys.len());
                            if leaf_key(p) == key {
                                assert(!old_keys.contains(leaf_key(p) as u64));
                                if self.middle@[512 * w + middle_slot(p)].valid() {
                                    assert(keys[l as int] == key);
                                    assert(!self.leaf@[512 * l + leaf_slot(p)].valid());
                                }
                            } else {
                                if 512 * w + middle_slot(p) == position {
                                    assert(w == m);
                                    assert(middle_slot(p) == slot);
                                    assert(mk == middle_key(page));
                                }
                                if old_keys.contains(leaf_key(p) as u64) {
                                    let v = key_index(old_keys, leaf_key(p));
                                    let v0 = choose|v: int| 0 <= v < old_keys.len() && old_keys[v] == leaf_key(p) as u64;
                                    lemma_key_index(old_keys, v0);
                                    assert(512 * v + leaf_slot(p) < 512 * l);
                                }
                            }
                        }
                    }
                    assert forall|p: int| 0 <= p < PAGE_NUMBER_LIMIT && #[trigger] old(self).has_path(p) implies self.has_path(p)
                        && self.leaf_position(p) == old(self).leaf_position(p) by {
                        lemma_page_keys(p);
                        let mk = middle_key(p);
                        let w0 = choose|w: int| 0 <= w < mkeys.len() && mkeys[w] == mk as u64;
                        lemma_key_index(mkeys, w0);
                        let w = key_index(mkeys, mk);
                        let v0 = choose|v: int| 0 <= v < old_keys.len() && old_keys[v] == leaf_key(p) as u64;
                        lemma_key_index(old_keys, v0);
                        if 512 * w + middle_slot(p) == position {
                            assert(w == m);
                            assert(leaf_key(p) == key);
                        }
                    }
                    assert(self.has_path(page));
                }
                l
            },
        }
    }

    /// Writes the leaf entry of a page that has a path. No other page changes its translation.
    fn set_leaf_entry(&mut self, page_number: PageNumber, entry: PageTableEntry)
        requires
            old(self).wf(),
            page_number.wf(),
            old(self).has_path(page_number.bits as int),
        ensures
            final(self).wf(),
            final(self).lookup(page_number.bits as int) == if entry.valid() {
                Some(entry)
            } else {
                None
            },
            forall|p: int|
                0 <= p < PAGE_NUMBER_LIMIT && p != page_number.bits ==> #[trigger] final(self).lookup(p)
                    == old(self).lookup(p),
            forall|p: int| #[trigger] final(self).has_path(p) == old(self).has_path(p),
            final(self).root_frame_number == old(self).root_frame_number,
            final(self).frame_list@ == old(self).frame_list@,
            final(self).middle_keys@ == old(self).middle_keys@,
            final(self).leaf_keys@ == old(self).leaf_keys@,
    {
        let ghost page = page_number.bits as int;
        proof {
            lemma_page_keys(page);
        }
        let key = page_number.bits / 512;
        let l = match find_key(&self.leaf_keys, key) {
            Some(l) => l,
            None => {
                assert(false);
                return;
            },
        };
        assert(self.leaf_keys@.len() * 512 == self.leaf.len());
        let position = 512 * l + (page_number.bits % 512) as usize;
        self.leaf.set(position, entry);
        proof {
            assert forall|p: int|
                0 <= p < PAGE_NUMBER_LIMIT && p != page implies #[trigger] self.lookup(p) == old(self).lookup(p) by {
                lemma_page_keys(p);
                if old(self).has_path(p) {
                    let v0 = choose|v: int| 0 <= v < self.leaf_keys@.len() && self.leaf_keys@[v] == leaf_key(p) as u64;
                    lemma_key_index(self.leaf_keys@, v0);
                    let v = key_index(self.leaf_keys@, leaf_key(p));
                    if 512 * v + leaf_slot(p) == position {
                        assert(v == l);
                        assert(leaf_key(p) == key);
                    }
                }
            }
        }
    }

    /// Maps a page that has no valid entry to a frame with `flags` and the valid bit. Returns
    /// `false`, and changes no translation, when the allocator lacks the frames for the tables.
    pub fn map(
        &mut self,
        page_number: PageNumber,
        frame_number: FrameNumber,
        flags: u64,
        allocator: &mut StackFrameAllocator,
        memory: &mut PhysicalMemory,
    ) -> (r: bool)
        requires
            old(self).wf(),
            page_number.wf(),
            frame_number.wf(),
            flags < PTE_FLAGS_LIMIT,
            old(self).lookup(page_number.bits as int) is None,
            old(allocator).wf(),
            old(memory).wf(),
            old(allocator).backed_by(old(memory)),
        ensures
            final(self).wf(),
            final(allocator).wf(),
            final(memory).wf(),
            final(allocator).backed_by(final(memory)),
            frames_kept(old(allocator), final(allocator), old(memory), final(memory)),
            final(self).root_frame_number == old(self).root_frame_number,
            r == (old(allocator).available() >= old(self).tables_needed(page_number.bits as int)),
            r ==> final(allocator).available() == old(allocator).available() - old(self).tables_needed(page_number.bits as int),
            !r ==> final(allocator).available() == old(allocator).available(),
            old(self).frame_list@.len() <= final(self).frame_list@.len() <= old(self).frame_list@.len() + 2,
            final(self).frame_list@.subrange(0, old(self).frame_list@.len() as int) == old(self).frame_list@,
            r ==> final(self).lookup(page_number.bits as int) == Some(
                PageTableEntry { bits: (frame_number.bits * PTE_FLAGS_LIMIT + (flags | PTE_V)) as u64 },
            ),
            !r ==> final(self).lookup(page_number.bits as int) is None,
            forall|p: int|
                0 <= p < PAGE_NUMBER_LIMIT && p != page_number.bits ==> #[trigger] final(self).lookup(p)
                    == old(self).lookup(p),
    {
        let ghost page = page_number.bits as int;
        proof {
            lemma_page_keys(page);
            lemma_add_valid(flags);
        }
        let index = page_number.index();
        let key = page_number.bits / 512;
        let needed: u64 = if find_key(&self.middle_keys, index[0]).is_none() {
            2
        } else if find_key(&self.leaf_keys, key).is_none() {
            1
        } else {
            0
        };
        proof {
            if !self.middle_keys@.contains(middle_key(page) as u64) && self.leaf_keys@.contains(leaf_key(page) as u64) {
                let v = choose|v: int| 0 <= v < self.leaf_keys@.len() && self.leaf_keys@[v] == leaf_key(page) as u64;
                assert(self.middle_keys@.contains((self.leaf_keys@[v] / 512) as u64));
            }
        }
        if !allocator.has_frames(needed as u128) {
            return false;
        }
        let m = self.ensure_middle(index[0], allocator, memory);
        let _ = self.ensure_leaf(page_number, m, allocator, memory);
        let entry = PageTableEntry::new(frame_number, flags | PTE_V);
        self.set_leaf_entry(page_number, entry);
        true
    }

    /// Clears the leaf entry of a mapped page.
    pub fn unmap(&mut self, page_number: PageNumber)
        requires
            old(self).wf(),
            page_number.wf(),
            old(self).lookup(page_number.bits as int) is Some,
        ensures
            final(self).wf(),
            final(self).lookup(page_number.bits as int) is None,
            forall|p: int|
                0 <= p < PAGE_NUMBER_LIMIT && p != page_number.bits ==> #[trigger] final(self).lookup(p)
                    == old(self).lookup(p),
            final(self).root_frame_number == old(self).root_frame_number,
            final(self).frame_list@ == old(self).frame_list@,
    {
        self.set_leaf_entry(page_number, PageTableEntry::empty());
    }

    /// Replaces the leaf entry of a mapped page with one for `frame_number` and `flags` and the
    /// valid bit.
    pub fn remap(&mut self, page_number: PageNumber, frame_number: FrameNumber, flags: u64)
        requires
            old(self).wf(),
            page_number.wf(),
            frame_number.wf(),
            flags < PTE_FLAGS_LIMIT,
            old(self).lookup(page_number.bits as int) is Some,
        ensures
            final(self).wf(),
            final(self).lookup(page_number.bits as int) == Some(
                PageTableEntry { bits: (frame_number.bits * PTE_FLAGS_LIMIT + (flags | PTE_V)) as u64 },
            ),
            forall|p: int|
                0 <= p < PAGE_NUMBER_LIMIT && p != page_number.bits ==> #[trigger] final(self).lookup(p)
                    == old(self).lookup(p),
            final(self).root_frame_number == old(self).root_frame_number,
    {
        proof {
            lemma_add_valid(flags);
        }
        let entry = PageTableEntry::new(frame_number, flags | PTE_V);
        self.set_leaf_entry(page_number, entry);
    }
}

/// The frames that were allocated stay allocated and keep their bytes and holders.
pub open spec fn frames_kept(
    old_allocator: &StackFrameAllocator,
    new_allocator: &StackFrameAllocator,
    old_memory: &PhysicalMemory,
    new_memory: &PhysicalMemory,
) -> bool {
    &&& new_memory.start == old_memory.start
    &&& new_memory.holders@ == old_memory.holders@
    &&& new_memory.data@.len() == old_memory.data@.len()
    &&& new_allocator.frame_end == old_allocator.frame_end
    &&& forall|g: u64| #[trigger]
        old_allocator.is_allocated(g) ==> new_allocator.is_allocated(g)
    &&& forall|g: int|
        old_memory.backs(g) && old_allocator.is_allocated(g as u64) ==> #[trigger] new_memory.bytes(
            g,
        ) == old_memory.bytes(g)
}

} // verus!
