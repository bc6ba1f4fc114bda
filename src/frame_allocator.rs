//! The frame allocator: a stack of returned frames over a cursor that walks a range of frames.
use vstd::prelude::*;

use crate::address::{FrameNumber, PhysicalAddress};
use crate::constant::MEM_LIMIT;
use crate::memory::PhysicalMemory;

verus! {

/// The `FrameTracker` struct owns one physical frame, which it zeroed when it was created.
pub struct FrameTracker {
    pub frame_number: FrameNumber,
}

impl FrameTracker {
    /// Takes the ownership of a frame and fills it with zeros.
    pub fn new(frame_number: FrameNumber, memory: &mut PhysicalMemory) -> (r: Self)
        requires
            old(memory).wf(),
            old(memory).backs(frame_number.bits as int),
        ensures
            r.frame_number == frame_number,
            final(memory).wf(),
            old(memory).same_except(final(memory), frame_number.bits as int),
            final(memory).bytes(frame_number.bits as int) == Seq::new(
                crate::constant::PAGE_SIZE as nat,
                |i: int| 0u8,
            ),
    {
        memory.zero_frame(frame_number);
        FrameTracker { frame_number }
    }

    pub fn frame_number(&self) -> (r: FrameNumber)
        ensures
            r == self.frame_number,
    {
        self.frame_number
    }
}

/// The `StackFrameAllocator` struct hands out the frames below `frame_end`: first those that were
/// returned, last returned first, then the frame at the cursor `frame_start`.
pub struct StackFrameAllocator {
    pub frame_start: u64,
    pub frame_end: u64,
    pub deallocated_page: Vec<u64>,
}

impl StackFrameAllocator {
    pub open spec fn wf(&self) -> bool {
        &&& self.frame_start <= self.frame_end
        &&& forall|i: int|
            0 <= i < self.deallocated_page@.len() ==> #[trigger] self.deallocated_page@[i]
                < self.frame_start
        &&& forall|i: int, j: int|
            0 <= i < j < self.deallocated_page@.len() ==> self.deallocated_page@[i]
                != self.deallocated_page@[j]
    }

    /// A frame is allocated when it lies below the cursor and has not been returned.
    pub open spec fn is_allocated(&self, frame: u64) -> bool {
        frame < self.frame_start && !self.deallocated_page@.contains(frame)
    }

    /// Every frame that the allocator can hand out lies in the window of `memory`.
    pub open spec fn backed_by(&self, memory: &PhysicalMemory) -> bool {
        &&& memory.start <= self.frame_start
        &&& self.frame_end <= memory.start + memory.frame_count()
        &&& forall|i: int|
            0 <= i < self.deallocated_page@.len() ==> memory.backs(
                #[trigger] self.deallocated_page@[i] as int,
            )
    }

    /// The number of frames the allocator can still hand out.
    pub open spec fn available(&self) -> int {
        self.deallocated_page@.len() + self.frame_end - self.frame_start
    }

    /// Returns `true` if the allocator can still hand out `count` frames.
    pub fn has_frames(&self, count: u128) -> (r: bool)
        requires
            self.wf(),
        ensures
            r == (self.available() >= count),
    {
        let returned = self.deallocated_page.len() as u128;
        returned + ((self.frame_end - self.frame_start) as u128) >= count
    }

    /// Returns `true` if the frame is allocated.
    pub fn owns(&self, frame_number: FrameNumber) -> (r: bool)
        ensures
            r == self.is_allocated(frame_number.bits),
    {
        if frame_number.bits >= self.frame_start {
            return false;
        }
        let mut i: usize = 0;
        while i < self.deallocated_page.len()
            invariant
                i <= self.deallocated_page@.len(),
                forall|j: int| 0 <= j < i ==> self.deallocated_page@[j] != frame_number.bits,
            decreases self.deallocated_page@.len() - i,
        {
            if self.deallocated_page[i] == frame_number.bits {
                return false;
            }
            i = i + 1;
        }
        true
    }

    /// Creates an allocator with nothing to hand out.
    pub fn new() -> (r: Self)
        ensures
            r.wf(),
            r.frame_start == 0,
            r.frame_end == 0,
            r.deallocated_page@ == Seq::<u64>::empty(),
    {
        StackFrameAllocator { frame_start: 0, frame_end: 0, deallocated_page: Vec::new() }
    }

    /// Sets the range of frames that the cursor walks.
    pub fn init(&mut self, frame_start: FrameNumber, frame_end: FrameNumber)
        requires
            frame_start.bits <= frame_end.bits,
            old(self).deallocated_page@.len() == 0,
        ensures
            final(self).wf(),
            final(self).frame_start == frame_start.bits,
            final(self).frame_end == frame_end.bits,
            final(self).deallocated_page@ == old(self).deallocated_page@,
    {
        self.frame_start = frame_start.bits;
        self.frame_end = frame_end.bits;
    }

    /// Hands out the last returned frame, else the frame at the cursor, else nothing.
    pub fn allocate(&mut self) -> (r: Option<FrameNumber>)
        requires
            old(self).wf(),
        ensures
            final(self).wf(),
            final(self).frame_end == old(self).frame_end,
            r is None <==> (old(self).deallocated_page@.len() == 0 && old(self).frame_start
                == old(self).frame_end),
            old(self).deallocated_page@.len() > 0 ==> r == Some(
                FrameNumber { bits: old(self).deallocated_page@.last() },
            ) && final(self).deallocated_page@ == old(self).deallocated_page@.drop_last()
                && final(self).frame_start == old(self).frame_start,
            old(self).deallocated_page@.len() == 0 && r is Some ==> r == Some(
                FrameNumber { bits: old(self).frame_start },
            ) && final(self).frame_start == old(self).frame_start + 1
                && final(self).deallocated_page@ == old(self).deallocated_page@,
            r is None ==> final(self).frame_start == old(self).frame_start
                && final(self).deallocated_page@ == old(self).deallocated_page@,
            r matches Some(f) ==> !old(self).is_allocated(f.bits)
                && final(self).is_allocated(f.bits) && f.bits < old(self).frame_end,
            r is Some ==> final(self).available() == old(self).available() - 1,
            r matches Some(f) ==> forall|g: u64|
                g != f.bits ==> #[trigger] final(self).is_allocated(g) == old(self).is_allocated(g),
    {
        if let Some(frame) = self.deallocated_page.pop() {
            proof {
                let s = old(self).deallocated_page@;
                assert(s =~= self.deallocated_page@.push(frame));
                assert forall|i: int| 0 <= i < self.deallocated_page@.len() implies #[trigger]
                    self.deallocated_page@[i] != frame by {
                    assert(s[i] != s[s.len() - 1]);
                }
                assert(s[s.len() - 1] == frame);
                assert forall|g: u64| g != frame implies #[trigger] self.is_allocated(g)
                    == old(self).is_allocated(g) by {
                    if self.deallocated_page@.contains(g) {
                        let k = choose|k: int|
                            0 <= k < self.deallocated_page@.len() && self.deallocated_page@[k]
                                == g;
                        assert(s[k] == g);
                    }
                    if s.contains(g) && g < self.frame_start {
                        let k = choose|k: int| 0 <= k < s.len() && s[k] == g;
                        if k < s.len() - 1 {
                            assert(self.deallocated_page@[k] == g);
                        }
                    }
                }
            }
            Some(FrameNumber { bits: frame })
        } else if self.frame_start == self.frame_end {
            None
        } else {
            let result = FrameNumber { bits: self.frame_start };
            self.frame_start = self.frame_start + 1;
            proof {
                assert(!old(self).deallocated_page@.contains(result.bits));
            }
            Some(result)
        }
    }

    /// Returns an allocated frame to the allocator.
    pub fn deallocate(&mut self, frame_number: FrameNumber)
        requires
            old(self).wf(),
            old(self).is_allocated(frame_number.bits),
        ensures
            final(self).wf(),
            final(self).frame_start == old(self).frame_start,
            final(self).frame_end == old(self).frame_end,
            final(self).deallocated_page@ == old(self).deallocated_page@.push(frame_number.bits),
            !final(self).is_allocated(frame_number.bits),
            forall|g: u64|
                g != frame_number.bits ==> #[trigger] final(self).is_allocated(g) == old(self).is_allocated(g),
    {
        self.deallocated_page.push(frame_number.bits);
        proof {
            let s = old(self).deallocated_page@;
            assert(self.deallocated_page@[s.len() as int] == frame_number.bits);
            assert forall|g: u64| g != frame_number.bits implies #[trigger] self.is_allocated(g)
                == old(self).is_allocated(g) by {
                if self.deallocated_page@.contains(g) {
                    let k = choose|k: int|
                        0 <= k < self.deallocated_page@.len() && self.deallocated_page@[k]
                            == g;
                    assert(s[k] == g);
                }
                if s.contains(g) {
                    let k = choose|k: int| 0 <= k < s.len() && s[k] == g;
                    assert(self.deallocated_page@[k] == g);
                }
            }
        }
    }
}

/// Creates the allocator of the frames from the end of the kernel image up to the memory limit.
pub fn init_frame(kernel_end: PhysicalAddress) -> (r: StackFrameAllocator)
    requires
        kernel_end.wf(),
        kernel_end.bits <= MEM_LIMIT,
    ensures
        r.wf(),
        r.frame_start == (kernel_end.bits + 4095) / 4096,
        r.frame_end == MEM_LIMIT / 4096,
        r.deallocated_page@.len() == 0,
{
    let mut allocator = StackFrameAllocator::new();
    let limit = PhysicalAddress::new(MEM_LIMIT);
    allocator.init(kernel_end.ceil(), limit.floor());
    allocator
}

/// Allocates a frame, zeroes it and returns its tracker, or `None` when no frame is left.
pub fn allocate_frame(allocator: &mut StackFrameAllocator, memory: &mut PhysicalMemory) -> (r:
    Option<FrameTracker>)
    requires
        old(allocator).wf(),
        old(memory).wf(),
        old(allocator).backed_by(old(memory)),
    ensures
        final(allocator).wf(),
        final(memory).wf(),
        final(allocator).backed_by(final(memory)),
        final(allocator).frame_end == old(allocator).frame_end,
        r is None <==> (old(allocator).deallocated_page@.len() == 0 && old(allocator).frame_start
            == old(allocator).frame_end),
        r is Some ==> final(allocator).available() == old(allocator).available() - 1,
        r is None ==> final(allocator).frame_start == old(allocator).frame_start
            && final(allocator).deallocated_page@ == old(allocator).deallocated_page@
            && *final(memory) == *old(memory),
        r matches Some(t) ==> {
            &&& !old(allocator).is_allocated(t.frame_number.bits)
            &&& final(allocator).is_allocated(t.frame_number.bits)
            &&& forall|g: u64|
                g != t.frame_number.bits ==> #[trigger] final(allocator).is_allocated(g) == old(allocator).is_allocated(g)
            &&& final(memory).backs(t.frame_number.bits as int)
            &&& old(memory).same_except(final(memory), t.frame_number.bits as int)
            &&& final(memory).bytes(t.frame_number.bits as int) == Seq::new(
                crate::constant::PAGE_SIZE as nat,
                |i: int| 0u8,
            )
        },
{
    match allocator.allocate() {
        Some(frame_number) => {
            proof {
                if old(allocator).deallocated_page@.len() > 0 {
                    let s = old(allocator).deallocated_page@;
                    assert(memory.backs(s[s.len() - 1] as int));
                }
            }
            let tracker = FrameTracker::new(frame_number, memory);
            Some(tracker)
        },
        None => None,
    }
}

/// Returns a frame to the allocator.
pub fn deallocate_frame(allocator: &mut StackFrameAllocator, frame_number: FrameNumber)
    requires
        old(allocator).wf(),
        old(allocator).is_allocated(frame_number.bits),
    ensures
        final(allocator).wf(),
        final(allocator).frame_start == old(allocator).frame_start,
        final(allocator).frame_end == old(allocator).frame_end,
        final(allocator).deallocated_page@ == old(allocator).deallocated_page@.push(
            frame_number.bits,
        ),
        !final(allocator).is_allocated(frame_number.bits),
        forall|g: u64|
            g != frame_number.bits ==> #[trigger] final(allocator).is_allocated(g) == old(allocator).is_allocated(g),
{
    allocator.deallocate(frame_number);
}

} // verus!
