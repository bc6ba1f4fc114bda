//! Reading and writing user memory through an address space.
use vstd::prelude::*;

use crate::address::{page_of_address, VirtualAddress};
use crate::constant::PAGE_SIZE;
use crate::memory::PhysicalMemory;
use crate::page_set::PageSet;

verus! {

/// The byte at a user address: `None` when the page has no valid entry or its frame lies
/// outside the memory window.
pub open spec fn user_byte(page_set: &PageSet, memory: &PhysicalMemory, address: int) -> Option<u8> {
    match page_set.page_table.lookup(page_of_address(address)) {
        None => None,
        Some(entry) => if memory.backs(entry.frame_of() as int) {
            Some(memory.bytes(entry.frame_of() as int)[address % PAGE_SIZE as int])
        } else {
            None
        },
    }
}

/// The bytes at `length` user addresses from `address` on, if all can be read.
pub open spec fn user_bytes(page_set: &PageSet, memory: &PhysicalMemory, address: int, length: int) -> Option<Seq<u8>>
    decreases length,
{
    if length <= 0 {
        Some(Seq::empty())
    } else {
        match (user_bytes(page_set, memory, address, length - 1), user_byte(page_set, memory, address + length - 1)) {
            (Some(s), Some(b)) => Some(s.push(b)),
            _ => None,
        }
    }
}

/// Writes the byte at a user address, when it can be read; returns whether it was written.
pub fn write_user_byte(page_set: &PageSet, memory: &mut PhysicalMemory, address: u64, value: u8) -> (r: bool)
    requires
        page_set.wf(),
        old(memory).wf(),
    ensures
        final(memory).wf(),
        final(memory).start == old(memory).start,
        final(memory).holders@ == old(memory).holders@,
        r == (user_byte(page_set, old(memory), address as int) is Some),
        r ==> user_byte(page_set, final(memory), address as int) == Some(value),
        !r ==> final(memory).data@ == old(memory).data@,
{
    let page = VirtualAddress { bits: address }.floor();
    match page_set.translate(page) {
        None => false,
        Some(entry) => {
            let frame = entry.frame_number();
            if memory.contains_frame(frame) {
                memory.write_byte(frame, address % PAGE_SIZE, value);
                true
            } else {
                false
            }
        },
    }
}

/// Returns `true` if two byte strings are equal.
pub fn bytes_equal(a: &[u8], b: &[u8]) -> (r: bool)
    ensures
        r == (a@ == b@),
{
    if a.len() != b.len() {
        return false;
    }
    let mut i: usize = 0;
    while i < a.len()
        invariant
            a@.len() == b@.len(),
            i <= a@.len(),
            forall|k: int| 0 <= k < i ==> a@[k] == b@[k],
        decreases a@.len() - i,
    {
        if a[i] != b[i] {
            return false;
        }
        i = i + 1;
    }
    assert(a@ =~= b@);
    true
}

/// Returns the position of the first program whose name is `name` in a bundle's name list.
pub fn get_bin(names: &Vec<Vec<u8>>, name: &[u8]) -> (r: Option<usize>)
    ensures
        r is None ==> forall|i: int| 0 <= i < names@.len() ==> (#[trigger] names@[i])@ != name@,
        r matches Some(i) ==> i < names@.len() && names@[i as int]@ == name@
            && forall|j: int| 0 <= j < i ==> (#[trigger] names@[j])@ != name@,
{
    let mut i: usize = 0;
    while i < names.len()
        invariant
            i <= names@.len(),
            forall|j: int| 0 <= j < i ==> (#[trigger] names@[j])@ != name@,
        decreases names@.len() - i,
    {
        if bytes_equal(names[i].as_slice(), name) {
            return Some(i);
        }
        i = i + 1;
    }
    None
}

/// The `UserPtr` struct is an address in a user address space.
#[derive(Copy, Clone, PartialEq, Eq, Structural, Debug)]
pub struct UserPtr {
    pub ptr: u64,
}

/// Returns the byte at a user address, or `None`.
pub fn read_user_byte(page_set: &PageSet, memory: &PhysicalMemory, address: u64) -> (r: Option<u8>)
    requires
        page_set.wf(),
        memory.wf(),
    ensures
        r == user_byte(page_set, memory, address as int),
{
    let page = VirtualAddress { bits: address }.floor();
    match page_set.translate(page) {
        None => None,
        Some(entry) => {
            let frame = entry.frame_number();
            if memory.contains_frame(frame) {
                Some(memory.read_byte(frame, address % PAGE_SIZE))
            } else {
                None
            }
        },
    }
}

impl UserPtr {
    pub fn new(ptr: u64) -> (r: Self)
        ensures
            r.ptr == ptr,
    {
        UserPtr { ptr }
    }

    /// Returns the `length` bytes from the address on, or `None` when one of them cannot be
    /// read or the range passes the top of the address space.
    pub fn as_buffer(&self, page_set: &PageSet, memory: &PhysicalMemory, length: u64) -> (r: Option<Vec<u8>>)
        requires
            page_set.wf(),
            memory.wf(),
        ensures
            self.ptr + length <= u64::MAX ==> (r is None <==> user_bytes(page_set, memory, self.ptr as int, length as int) is None),
            r matches Some(v) ==> user_bytes(page_set, memory, self.ptr as int, length as int) == Some(v@),
            self.ptr + length > u64::MAX ==> r is None,
    {
        if length > u64::MAX - self.ptr {
            return None;
        }
        let mut bytes: Vec<u8> = Vec::new();
        let mut i: u64 = 0;
        while i < length
            invariant
                i <= length,
                self.ptr + length <= u64::MAX,
                page_set.wf(),
                memory.wf(),
                user_bytes(page_set, memory, self.ptr as int, i as int) == Some(bytes@),
            decreases length - i,
        {
            match read_user_byte(page_set, memory, self.ptr + i) {
                Some(b) => bytes.push(b),
                None => {
                    proof {
                        lemma_user_bytes_none(page_set, memory, self.ptr as int, i as int, length as int);
                    }
                    return None;
                },
            }
            i = i + 1;
        }
        Some(bytes)
    }

    /// Returns the bytes from the address up to, not including, the first zero byte, reading
    /// at most `limit` bytes; `None` when a byte cannot be read or no zero byte comes in time.
    pub fn as_string(&self, page_set: &PageSet, memory: &PhysicalMemory, limit: u64) -> (r: Option<Vec<u8>>)
        requires
            page_set.wf(),
            memory.wf(),
        ensures
            r is Some <==> exists|n: int| 0 <= n < limit && #[trigger] string_ends(page_set, memory, self.ptr as int, n),
            r matches Some(s) ==> string_ends(page_set, memory, self.ptr as int, s@.len() as int)
                && user_bytes(page_set, memory, self.ptr as int, s@.len() as int) == Some(s@),
    {
        let mut bytes: Vec<u8> = Vec::new();
        let mut i: u64 = 0;
        while i < limit
            invariant
                i <= limit,
                page_set.wf(),
                memory.wf(),
                bytes@.len() == i,
                self.ptr + i <= u64::MAX,
                user_bytes(page_set, memory, self.ptr as int, i as int) == Some(bytes@),
                forall|k: int| 0 <= k < i ==> bytes@[k] != 0,
            decreases limit - i,
        {
            if self.ptr == u64::MAX - i {
                proof {
                    assert forall|n: int| 0 <= n < limit implies !#[trigger] string_ends(page_set, memory, self.ptr as int, n) by {
                        if n < i {
                            lemma_string_not_ended(page_set, memory, self.ptr as int, i as int, bytes@, n);
                        }
                    }
                }
                return None;
            }
            match read_user_byte(page_set, memory, self.ptr + i) {
                None => {
                    proof {
                        assert forall|n: int| 0 <= n < limit implies !#[trigger] string_ends(page_set, memory, self.ptr as int, n) by {
                            if n < i {
                                lemma_string_not_ended(page_set, memory, self.ptr as int, i as int, bytes@, n);
                            } else if n > i {
                                lemma_user_bytes_none(page_set, memory, self.ptr as int, i as int, n);
                            }
                        }
                    }
                    return None;
                },
                Some(0) => {
                    assert(string_ends(page_set, memory, self.ptr as int, i as int));
                    return Some(bytes);
                },
                Some(b) => bytes.push(b),
            }
            i = i + 1;
        }
        proof {
            assert forall|n: int| 0 <= n < limit implies !#[trigger] string_ends(page_set, memory, self.ptr as int, n) by {
                lemma_string_not_ended(page_set, memory, self.ptr as int, i as int, bytes@, n);
            }
        }
        None
    }
}

/// A string of `n` bytes ends at the user address `address + n`: its bytes read as non-zero,
/// and the byte after them reads as zero.
pub open spec fn string_ends(page_set: &PageSet, memory: &PhysicalMemory, address: int, n: int) -> bool {
    &&& address + n < u64::MAX
    &&& user_bytes(page_set, memory, address, n) matches Some(s) && forall|k: int| 0 <= k < s.len() ==> s[k] != 0
    &&& user_byte(page_set, memory, address + n) == Some(0u8)
}

/// Bytes read as non-zero up to `i` end no string before `i`.
proof fn lemma_string_not_ended(page_set: &PageSet, memory: &PhysicalMemory, address: int, i: int, s: Seq<u8>, n: int)
    requires
        0 <= n < i,
        s.len() == i,
        user_bytes(page_set, memory, address, i) == Some(s),
        forall|k: int| 0 <= k < i ==> s[k] != 0,
    ensures
        !string_ends(page_set, memory, address, n),
    decreases i,
{
    let p = user_bytes(page_set, memory, address, i - 1);
    let b = user_byte(page_set, memory, address + i - 1);
    assert(p is Some && b is Some);
    assert(p.unwrap().push(b.unwrap()) == s);
    assert(p.unwrap() =~= s.drop_last());
    if n < i - 1 {
        lemma_string_not_ended(page_set, memory, address, i - 1, s.drop_last(), n);
    } else {
        assert(user_byte(page_set, memory, address + n) == Some(s[n]));
    }
}

/// A byte that cannot be read makes every longer range unreadable.
proof fn lemma_user_bytes_none(page_set: &PageSet, memory: &PhysicalMemory, address: int, i: int, length: int)
    requires
        0 <= i < length,
        user_byte(page_set, memory, address + i) is None,
    ensures
        user_bytes(page_set, memory, address, length) is None,
    decreases length,
{
    if length - 1 > i {
        lemma_user_bytes_none(page_set, memory, address, i, length - 1);
    }
}

} // verus!
