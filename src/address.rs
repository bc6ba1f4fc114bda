//! Sv39 addresses and page numbers: 56-bit physical addresses, 39-bit sign-extended virtual
//! addresses, 44-bit frame numbers and 27-bit page numbers.
use vstd::prelude::*;

use crate::constant::PAGE_SIZE;

verus! {

/// 2^56: the bound of a physical address.
pub const PHYSICAL_ADDRESS_LIMIT: u64 = 0x100_0000_0000_0000;

/// 2^44: the bound of a frame number.
pub const FRAME_NUMBER_LIMIT: u64 = 0x1000_0000_0000;

/// 2^27: the bound of a page number.
pub const PAGE_NUMBER_LIMIT: u64 = 0x800_0000;

/// 2^38: the lowest virtual address whose sign bit is set.
pub const VIRTUAL_SIGN_BIT: u64 = 0x40_0000_0000;

/// The bits 63..39, all set: what sign extension adds above a 39-bit address.
pub const VIRTUAL_SIGN_EXTENSION: u64 = 0xffff_ff80_0000_0000;

/// The lowest canonical virtual address in the upper half.
pub const VIRTUAL_HIGH_START: u64 = 0xffff_ffc0_0000_0000;

/// A virtual address is canonical when bits 63..38 are all zero or all one.
pub open spec fn canonical(bits: int) -> bool {
    bits < VIRTUAL_SIGN_BIT || bits >= VIRTUAL_HIGH_START
}

/// The page that holds a virtual address.
pub open spec fn page_of_address(bits: int) -> int {
    (bits / PAGE_SIZE as int) % PAGE_NUMBER_LIMIT as int
}

/// The first page that starts at or above a virtual address, modulo 2^27.
pub open spec fn ceil_page_of_address(bits: int) -> int {
    (bits / PAGE_SIZE as int + if bits % PAGE_SIZE as int == 0 {
        0int
    } else {
        1int
    }) % PAGE_NUMBER_LIMIT as int
}

/// The first address of a page, sign-extended from bit 38.
pub open spec fn address_of_page(page: int) -> int {
    let low = page * PAGE_SIZE as int;
    if low >= VIRTUAL_SIGN_BIT {
        low + VIRTUAL_SIGN_EXTENSION
    } else {
        low
    }
}

/// The three 9-bit indexes of a page number, from the root level down.
pub open spec fn page_indexes(page: int) -> (int, int, int) {
    ((page / 262144) % 512, (page / 512) % 512, page % 512)
}

/// The `PhysicalAddress` struct represents a 56-bit physical address.
#[derive(Copy, Clone, PartialEq, Eq, Structural, Debug)]
pub struct PhysicalAddress {
    pub bits: u64,
}

/// The `FrameNumber` struct represents the number of a 44-bit physical frame.
#[derive(Copy, Clone, PartialEq, Eq, Structural, Debug)]
pub struct FrameNumber {
    pub bits: u64,
}

/// The `VirtualAddress` struct represents a canonical Sv39 virtual address.
#[derive(Copy, Clone, PartialEq, Eq, Structural, Debug)]
pub struct VirtualAddress {
    pub bits: u64,
}

/// The `PageNumber` struct represents the number of a 27-bit virtual page.
#[derive(Copy, Clone, PartialEq, Eq, Structural, Debug)]
pub struct PageNumber {
    pub bits: u64,
}

impl PhysicalAddress {
    pub open spec fn wf(self) -> bool {
        self.bits < PHYSICAL_ADDRESS_LIMIT
    }

    /// Keeps the low 56 bits of `bits`.
    pub fn new(bits: u64) -> (r: Self)
        ensures
            r.bits == bits % PHYSICAL_ADDRESS_LIMIT,
            r.wf(),
    {
        PhysicalAddress { bits: bits % PHYSICAL_ADDRESS_LIMIT }
    }

    /// Returns the first address of a frame.
    pub fn from_frame(frame_number: FrameNumber) -> (r: Self)
        requires
            frame_number.wf(),
        ensures
            r.bits == frame_number.bits * PAGE_SIZE,
            r.wf(),
    {
        PhysicalAddress { bits: frame_number.bits * PAGE_SIZE }
    }

    /// Returns the frame that holds the address.
    pub fn floor(&self) -> (r: FrameNumber)
        requires
            self.wf(),
        ensures
            r.bits == self.bits / PAGE_SIZE,
            r.wf(),
    {
        FrameNumber { bits: self.bits / PAGE_SIZE }
    }

    /// Returns the first frame that starts at or above the address, modulo 2^44.
    pub fn ceil(&self) -> (r: FrameNumber)
        requires
            self.wf(),
        ensures
            r.bits == ((self.bits + PAGE_SIZE - 1) / PAGE_SIZE as int) % FRAME_NUMBER_LIMIT as int,
            r.wf(),
    {
        FrameNumber { bits: ((self.bits + (PAGE_SIZE - 1)) / PAGE_SIZE) % FRAME_NUMBER_LIMIT }
    }

    /// Returns the byte offset of the address inside its frame.
    pub fn page_offset(&self) -> (r: u64)
        ensures
            r == self.bits % PAGE_SIZE,
    {
        self.bits % PAGE_SIZE
    }

    /// Returns `true` if the address is the first of a frame.
    pub fn is_aligned(&self) -> (r: bool)
        ensures
            r == (self.bits % PAGE_SIZE == 0),
    {
        self.page_offset() == 0
    }

    /// Returns the address `rhs` bytes above, modulo 2^56.
    pub fn add(&self, rhs: u64) -> (r: Self)
        ensures
            r.bits == (self.bits + rhs) % PHYSICAL_ADDRESS_LIMIT as int,
            r.wf(),
    {
        let sum: u128 = self.bits as u128 + rhs as u128;
        PhysicalAddress { bits: (sum % (PHYSICAL_ADDRESS_LIMIT as u128)) as u64 }
    }
}

impl FrameNumber {
    pub open spec fn wf(self) -> bool {
        self.bits < FRAME_NUMBER_LIMIT
    }

    /// Keeps the low 44 bits of `bits`.
    pub fn new(bits: u64) -> (r: Self)
        ensures
            r.bits == bits % FRAME_NUMBER_LIMIT,
            r.wf(),
    {
        FrameNumber { bits: bits % FRAME_NUMBER_LIMIT }
    }

    /// Returns the frame of an address that starts a frame.
    pub fn from_address(address: PhysicalAddress) -> (r: Self)
        requires
            address.wf(),
            address.bits % PAGE_SIZE == 0,
        ensures
            r.bits * PAGE_SIZE == address.bits,
            r.wf(),
    {
        address.floor()
    }

    /// Returns the frame `rhs` frames above, modulo 2^44.
    pub fn offset(&self, rhs: u64) -> (r: Self)
        ensures
            r.bits == (self.bits + rhs) % FRAME_NUMBER_LIMIT as int,
            r.wf(),
    {
        let sum: u128 = self.bits as u128 + rhs as u128;
        FrameNumber { bits: (sum % (FRAME_NUMBER_LIMIT as u128)) as u64 }
    }
}

impl VirtualAddress {
    pub open spec fn wf(self) -> bool {
        canonical(self.bits as int)
    }

    /// Returns a canonical address.
    pub fn new(bits: u64) -> (r: Self)
        requires
            canonical(bits as int),
        ensures
            r.bits == bits,
    {
        VirtualAddress { bits }
    }

    /// Returns the address if it is canonical, and `None` otherwise.
    pub fn try_new(bits: u64) -> (r: Option<Self>)
        ensures
            r is Some <==> canonical(bits as int),
            r matches Some(a) ==> a.bits == bits,
    {
        if bits < VIRTUAL_SIGN_BIT || bits >= VIRTUAL_HIGH_START {
            Some(VirtualAddress { bits })
        } else {
            None
        }
    }

    /// Returns the first address of a page, sign-extended from bit 38.
    pub fn from_page(page_number: PageNumber) -> (r: Self)
        requires
            page_number.wf(),
        ensures
            r.bits == address_of_page(page_number.bits as int),
            r.wf(),
    {
        let low = page_number.bits * PAGE_SIZE;
        if low >= VIRTUAL_SIGN_BIT {
            VirtualAddress { bits: low + VIRTUAL_SIGN_EXTENSION }
        } else {
            VirtualAddress { bits: low }
        }
    }

    /// Returns the page that holds the address.
    pub fn floor(&self) -> (r: PageNumber)
        ensures
            r.bits == page_of_address(self.bits as int),
            r.wf(),
    {
        PageNumber { bits: (self.bits / PAGE_SIZE) % PAGE_NUMBER_LIMIT }
    }

    /// Returns the first page that starts at or above the address, modulo 2^27.
    pub fn ceil(&self) -> (r: PageNumber)
        ensures
            r.bits == ceil_page_of_address(self.bits as int),
            r.wf(),
    {
        let whole = self.bits / PAGE_SIZE;
        let up: u64 = if self.bits % PAGE_SIZE == 0 {
            whole
        } else {
            whole + 1
        };
        PageNumber { bits: up % PAGE_NUMBER_LIMIT }
    }

    /// Returns the byte offset of the address inside its page.
    pub fn page_offset(&self) -> (r: u64)
        ensures
            r == self.bits % PAGE_SIZE,
    {
        self.bits % PAGE_SIZE
    }

    /// Returns `true` if the address is the first of a page.
    pub fn is_aligned(&self) -> (r: bool)
        ensures
            r == (self.bits % PAGE_SIZE == 0),
    {
        self.page_offset() == 0
    }

    /// Returns the address `rhs` bytes above, if that address is canonical.
    pub fn add(&self, rhs: u64) -> (r: Option<Self>)
        ensures
            r is Some <==> (self.bits + rhs < u64::MAX + 1 && canonical(self.bits + rhs)),
            r matches Some(a) ==> a.bits == self.bits + rhs,
    {
        if rhs > u64::MAX - self.bits {
            None
        } else {
            VirtualAddress::try_new(self.bits + rhs)
        }
    }
}

impl PageNumber {
    pub open spec fn wf(self) -> bool {
        self.bits < PAGE_NUMBER_LIMIT
    }

    /// Keeps the low 27 bits of `bits`.
    pub fn new(bits: u64) -> (r: Self)
        ensures
            r.bits == bits % PAGE_NUMBER_LIMIT,
            r.wf(),
    {
        PageNumber { bits: bits % PAGE_NUMBER_LIMIT }
    }

    /// Returns the page that holds an address.
    pub fn from_address(address: VirtualAddress) -> (r: Self)
        ensures
            r.bits == page_of_address(address.bits as int),
            r.wf(),
    {
        address.floor()
    }

    /// Returns the indexes into the root, middle and leaf tables of the page.
    pub fn index(&self) -> (r: [u64; 3])
        ensures
            r[0] as int == page_indexes(self.bits as int).0,
            r[1] as int == page_indexes(self.bits as int).1,
            r[2] as int == page_indexes(self.bits as int).2,
    {
        [(self.bits / 262144) % 512, (self.bits / 512) % 512, self.bits % 512]
    }

    /// Returns the page `rhs` pages above, modulo 2^27.
    pub fn offset(&self, rhs: u64) -> (r: Self)
        ensures
            r.bits == (self.bits + rhs) % PAGE_NUMBER_LIMIT as int,
            r.wf(),
    {
        let sum: u128 = self.bits as u128 + rhs as u128;
        PageNumber { bits: (sum % (PAGE_NUMBER_LIMIT as u128)) as u64 }
    }
}

/// The page of the first address of a page is that page.
pub proof fn lemma_page_address_page(page: int)
    requires
        0 <= page < PAGE_NUMBER_LIMIT,
    ensures
        page_of_address(address_of_page(page)) == page,
        canonical(address_of_page(page)),
        address_of_page(page) % PAGE_SIZE as int == 0,
{
    let low = page * 4096;
    assert(low / 4096 == page);
    if low >= VIRTUAL_SIGN_BIT {
        let bits = low + VIRTUAL_SIGN_EXTENSION;
        assert(bits / 4096 == page + 0xf_ffff_f800_0000);
        assert(0xf_ffff_f800_0000int == 0x1_ffff_ffint * PAGE_NUMBER_LIMIT);
        vstd::arithmetic::div_mod::lemma_mod_multiples_vanish(0x1_ffff_ff, page, PAGE_NUMBER_LIMIT as int);
        vstd::arithmetic::div_mod::lemma_small_mod(page as nat, PAGE_NUMBER_LIMIT as nat);
    } else {
        vstd::arithmetic::div_mod::lemma_small_mod(page as nat, PAGE_NUMBER_LIMIT as nat);
    }
}

/// A canonical page-aligned virtual address survives the trip to its page and back.
pub proof fn lemma_address_page_round_trip(address: VirtualAddress)
    requires
        address.wf(),
        address.bits % PAGE_SIZE == 0,
    ensures
        address_of_page(page_of_address(address.bits as int)) == address.bits,
{
    let bits = address.bits as int;
    let q = bits / 4096;
    assert(bits == q * 4096);
    if bits < VIRTUAL_SIGN_BIT {
        assert(q < PAGE_NUMBER_LIMIT);
        vstd::arithmetic::div_mod::lemma_small_mod(q as nat, PAGE_NUMBER_LIMIT as nat);
    } else {
        let r = q - 0xf_ffff_f800_0000;
        assert(0 <= r < PAGE_NUMBER_LIMIT);
        assert(0xf_ffff_f800_0000int == 0x1_ffff_ffint * PAGE_NUMBER_LIMIT);
        vstd::arithmetic::div_mod::lemma_mod_multiples_vanish(0x1_ffff_ff, r, PAGE_NUMBER_LIMIT as int);
        vstd::arithmetic::div_mod::lemma_small_mod(r as nat, PAGE_NUMBER_LIMIT as nat);
        assert(page_of_address(bits) == r);
        assert(r * 4096 >= VIRTUAL_SIGN_BIT);
    }
}

/// Below the trampoline, the page of an address never lies above the rounded-up page of a
/// higher address.
pub proof fn lemma_floor_le_ceil(a: int, b: int)
    requires
        canonical(a),
        canonical(b),
        0 <= a <= b <= crate::constant::TRAMPOLINE,
    ensures
        page_of_address(a) <= ceil_page_of_address(b),
{
    let k: int = 0xf_ffff_f800_0000;
    assert(k == 0x1_ffff_ffint * PAGE_NUMBER_LIMIT);
    let qa = a / 4096;
    let qb = b / 4096 + if b % 4096 == 0 {
        0int
    } else {
        1int
    };
    assert(qa <= qb);
    if b < VIRTUAL_SIGN_BIT {
        assert(qb <= 0x400_0000);
        vstd::arithmetic::div_mod::lemma_small_mod(qa as nat, PAGE_NUMBER_LIMIT as nat);
        vstd::arithmetic::div_mod::lemma_small_mod(qb as nat, PAGE_NUMBER_LIMIT as nat);
    } else {
        assert(qb <= 0xf_ffff_ffff_ffff);
        assert(qb >= k + 0x400_0000);
        vstd::arithmetic::div_mod::lemma_mod_multiples_vanish(0x1_ffff_ff, qb - k, PAGE_NUMBER_LIMIT as int);
        vstd::arithmetic::div_mod::lemma_small_mod((qb - k) as nat, PAGE_NUMBER_LIMIT as nat);
        if a < VIRTUAL_SIGN_BIT {
            vstd::arithmetic::div_mod::lemma_small_mod(qa as nat, PAGE_NUMBER_LIMIT as nat);
        } else {
            vstd::arithmetic::div_mod::lemma_mod_multiples_vanish(0x1_ffff_ff, qa - k, PAGE_NUMBER_LIMIT as int);
            vstd::arithmetic::div_mod::lemma_small_mod((qa - k) as nat, PAGE_NUMBER_LIMIT as nat);
        }
    }
}

/// The `PageRange` struct represents the pages from `start` up to, not including, `end`.
#[derive(Copy, Clone, PartialEq, Eq, Structural, Debug)]
pub struct PageRange {
    pub start: PageNumber,
    pub end: PageNumber,
}

impl PageRange {
    pub open spec fn wf(self) -> bool {
        self.start.wf() && self.end.wf() && self.start.bits <= self.end.bits
    }

    /// Whether the range holds a page number.
    pub open spec fn contains(self, page: int) -> bool {
        self.start.bits <= page < self.end.bits
    }

    pub fn new(start: PageNumber, end: PageNumber) -> (r: Self)
        ensures
            r.start == start,
            r.end == end,
    {
        PageRange { start, end }
    }

    /// Returns an iterator over the pages of the range, in increasing order.
    pub fn iter(&self) -> (r: PageRangeIterator)
        ensures
            r.state == self.start,
            r.end == self.end,
    {
        PageRangeIterator::new(self.start, self.end)
    }

    /// Returns the number of pages in the range.
    pub fn len(&self) -> (r: u64)
        requires
            self.start.bits <= self.end.bits,
        ensures
            r == self.end.bits - self.start.bits,
    {
        self.end.bits - self.start.bits
    }

    pub fn start(&self) -> (r: PageNumber)
        ensures
            r == self.start,
    {
        self.start
    }

    pub fn end(&self) -> (r: PageNumber)
        ensures
            r == self.end,
    {
        self.end
    }
}

/// The `PageRangeIterator` struct walks the pages from `state` up to, not including, `end`.
pub struct PageRangeIterator {
    pub state: PageNumber,
    pub end: PageNumber,
}

impl PageRangeIterator {
    pub fn new(start: PageNumber, end: PageNumber) -> (r: Self)
        ensures
            r.state == start,
            r.end == end,
    {
        PageRangeIterator { state: start, end }
    }

    /// Returns the current page and moves to the next one, or `None` at the end.
    pub fn next(&mut self) -> (r: Option<PageNumber>)
        ensures
            old(self).state == old(self).end ==> r is None && *final(self) == *old(self),
            old(self).state != old(self).end ==> r == Some(old(self).state) && final(self).end
                == old(self).end && final(self).state.bits == (old(self).state.bits + 1)
                % PAGE_NUMBER_LIMIT as int,
    {
        if self.state == self.end {
            None
        } else {
            let result = self.state;
            self.state = self.state.offset(1);
            Some(result)
        }
    }
}

} // verus!
