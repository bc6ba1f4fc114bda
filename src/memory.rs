//! A window of physical memory: the bytes of the frames from `start` on, and how many holders
//! share each frame.
use vstd::prelude::*;

use crate::address::FrameNumber;
use crate::constant::PAGE_SIZE;

verus! {

/// The `PhysicalMemory` struct holds the contents of the frames `start .. start + frame_count`,
/// frame after frame, and for each frame the number of address-space segments that share it.
pub struct PhysicalMemory {
    pub start: u64,
    pub data: Vec<u8>,
    pub holders: Vec<u64>,
}

impl PhysicalMemory {
    pub open spec fn frame_count(&self) -> int {
        self.holders@.len() as int
    }

    pub open spec fn wf(&self) -> bool {
        &&& self.data@.len() == self.holders@.len() * PAGE_SIZE
        &&& self.start + self.holders@.len() < 0x1000_0000_0000
        &&& self.holders@.len() <= 0x8_0000
    }

    /// Whether the window holds a frame.
    pub open spec fn backs(&self, frame: int) -> bool {
        self.start <= frame < self.start + self.frame_count()
    }

    /// Where the bytes of a frame begin.
    pub open spec fn base(&self, frame: int) -> int {
        (frame - self.start) * PAGE_SIZE as int
    }

    /// The bytes of a frame.
    pub open spec fn bytes(&self, frame: int) -> Seq<u8> {
        self.data@.subrange(self.base(frame), self.base(frame) + PAGE_SIZE as int)
    }

    /// The number of segments that share a frame.
    pub open spec fn holder_count(&self, frame: int) -> u64 {
        self.holders@[frame - self.start]
    }

    /// The frames other than `frame` hold what they held, and the counts are unchanged.
    pub open spec fn same_except(&self, other: &Self, frame: int) -> bool {
        &&& other.start == self.start
        &&& other.holders@ == self.holders@
        &&& other.data@.len() == self.data@.len()
        &&& forall|g: int|
            self.backs(g) && g != frame ==> #[trigger] other.bytes(g) == self.bytes(g)
    }

    /// Creates a window of `frame_count` zeroed frames from `start` on.
    pub fn new(start: FrameNumber, frame_count: u64) -> (r: Self)
        requires
            start.bits + frame_count < 0x1000_0000_0000,
            frame_count <= 0x8_0000,
        ensures
            r.wf(),
            r.start == start.bits,
            r.frame_count() == frame_count,
            forall|i: int| 0 <= i < r.data@.len() ==> r.data@[i] == 0,
            forall|i: int| 0 <= i < frame_count ==> r.holders@[i] == 0,
    {
        let total: usize = (frame_count * PAGE_SIZE) as usize;
        let mut data: Vec<u8> = Vec::new();
        let mut i: usize = 0;
        while i < total
            invariant
                i <= total,
                data@.len() == i,
                forall|j: int| 0 <= j < i ==> data@[j] == 0,
            decreases total - i,
        {
            data.push(0);
            i = i + 1;
        }
        let mut holders: Vec<u64> = Vec::new();
        let mut k: u64 = 0;
        while k < frame_count
            invariant
                k <= frame_count,
                holders@.len() == k,
                forall|j: int| 0 <= j < k ==> holders@[j] == 0,
            decreases frame_count - k,
        {
            holders.push(0);
            k = k + 1;
        }
        PhysicalMemory { start: start.bits, data, holders }
    }

    /// Returns `true` if the window holds a frame.
    pub fn contains_frame(&self, frame: FrameNumber) -> (r: bool)
        ensures
            r == self.backs(frame.bits as int),
    {
        self.start <= frame.bits && frame.bits - self.start < self.holders.len() as u64
    }

    /// Returns the byte at `offset` in a frame.
    pub fn read_byte(&self, frame: FrameNumber, offset: u64) -> (r: u8)
        requires
            self.wf(),
            self.backs(frame.bits as int),
            offset < PAGE_SIZE,
        ensures
            r == self.bytes(frame.bits as int)[offset as int],
    {
        let index: usize = ((frame.bits - self.start) * PAGE_SIZE + offset) as usize;
        self.data[index]
    }

    /// Writes the byte at `offset` in a frame.
    pub fn write_byte(&mut self, frame: FrameNumber, offset: u64, value: u8)
        requires
            old(self).wf(),
            old(self).backs(frame.bits as int),
            offset < PAGE_SIZE,
        ensures
            final(self).wf(),
            old(self).same_except(final(self), frame.bits as int),
            final(self).bytes(frame.bits as int) == old(self).bytes(frame.bits as int).update(
                offset as int,
                value,
            ),
    {
        let index: usize = ((frame.bits - self.start) * PAGE_SIZE + offset) as usize;
        self.data.set(index, value);
        proof {
            let f = frame.bits as int;
            assert(self.bytes(f) =~= old(self).bytes(f).update(offset as int, value));
            assert forall|g: int| old(self).backs(g) && g != f implies #[trigger] self.bytes(g)
                == old(self).bytes(g) by {
                if g < f {
                    assert(self.base(g) + PAGE_SIZE <= self.base(f));
                } else {
                    assert(self.base(g) >= self.base(f) + PAGE_SIZE);
                }
                assert(self.bytes(g) =~= old(self).bytes(g));
            }
        }
    }

    /// Fills a frame with zeros.
    pub fn zero_frame(&mut self, frame: FrameNumber)
        requires
            old(self).wf(),
            old(self).backs(frame.bits as int),
        ensures
            final(self).wf(),
            old(self).same_except(final(self), frame.bits as int),
            final(self).bytes(frame.bits as int) == Seq::new(PAGE_SIZE as nat, |i: int| 0u8),
    {
        let mut offset: u64 = 0;
        while offset < PAGE_SIZE
            invariant
                offset <= PAGE_SIZE,
                self.wf(),
                self.backs(frame.bits as int),
                old(self).same_except(self, frame.bits as int),
                forall|i: int| 0 <= i < offset ==> self.bytes(frame.bits as int)[i] == 0,
            decreases PAGE_SIZE - offset,
        {
            self.write_byte(frame, offset, 0);
            offset = offset + 1;
        }
        assert(self.bytes(frame.bits as int) =~= Seq::new(PAGE_SIZE as nat, |i: int| 0u8));
    }

    /// Copies the bytes of frame `source` into frame `destination`.
    pub fn copy_frame(&mut self, destination: FrameNumber, source: FrameNumber)
        requires
            old(self).wf(),
            old(self).backs(destination.bits as int),
            old(self).backs(source.bits as int),
        ensures
            final(self).wf(),
            old(self).same_except(final(self), destination.bits as int),
            final(self).bytes(destination.bits as int) == old(self).bytes(source.bits as int),
    {
        let mut offset: u64 = 0;
        while offset < PAGE_SIZE
            invariant
                offset <= PAGE_SIZE,
                self.wf(),
                self.backs(destination.bits as int),
                self.backs(source.bits as int),
                old(self).same_except(self, destination.bits as int),
                destination.bits != source.bits ==> self.bytes(source.bits as int) == old(self).bytes(source.bits as int),
                forall|i: int|
                    0 <= i < offset ==> self.bytes(destination.bits as int)[i] == old(self).bytes(source.bits as int)[i],
                destination.bits == source.bits ==> self.bytes(destination.bits as int) == old(self).bytes(source.bits as int),
            decreases PAGE_SIZE - offset,
        {
            let value = self.read_byte(source, offset);
            self.write_byte(destination, offset, value);
            offset = offset + 1;
        }
        assert(self.bytes(destination.bits as int) =~= old(self).bytes(source.bits as int));
    }

    /// Copies `source` into a frame from `offset` on.
    pub fn write_bytes(&mut self, frame: FrameNumber, offset: u64, source: &[u8])
        requires
            old(self).wf(),
            old(self).backs(frame.bits as int),
            offset + source@.len() <= PAGE_SIZE,
        ensures
            final(self).wf(),
            old(self).same_except(final(self), frame.bits as int),
            final(self).bytes(frame.bits as int) == old(self).bytes(frame.bits as int).subrange(
                0,
                offset as int,
            ) + source@ + old(self).bytes(frame.bits as int).subrange(
                offset + source@.len(),
                PAGE_SIZE as int,
            ),
    {
        let mut i: usize = 0;
        while i < source.len()
            invariant
                i <= source@.len(),
                offset + source@.len() <= PAGE_SIZE,
                self.wf(),
                self.backs(frame.bits as int),
                old(self).same_except(self, frame.bits as int),
                forall|j: int|
                    0 <= j < PAGE_SIZE && !(offset <= j < offset + i) ==> self.bytes(
                        frame.bits as int,
                    )[j] == old(self).bytes(frame.bits as int)[j],
                forall|j: int|
                    0 <= j < i ==> self.bytes(frame.bits as int)[offset + j] == source@[j],
            decreases source@.len() - i,
        {
            self.write_byte(frame, offset + i as u64, source[i]);
            i = i + 1;
        }
        assert(self.bytes(frame.bits as int) =~= old(self).bytes(frame.bits as int).subrange(
            0,
            offset as int,
        ) + source@ + old(self).bytes(frame.bits as int).subrange(
            offset + source@.len(),
            PAGE_SIZE as int,
        ));
    }

    /// Returns the number of segments that share a frame.
    pub fn holders_of(&self, frame: FrameNumber) -> (r: u64)
        requires
            self.wf(),
            self.backs(frame.bits as int),
        ensures
            r == self.holder_count(frame.bits as int),
    {
        self.holders[(frame.bits - self.start) as usize]
    }

    /// Sets the number of segments that share a frame.
    pub fn set_holders(&mut self, frame: FrameNumber, count: u64)
        requires
            old(self).wf(),
            old(self).backs(frame.bits as int),
        ensures
            final(self).wf(),
            final(self).start == old(self).start,
            final(self).data@ == old(self).data@,
            final(self).holders@ == old(self).holders@.update(
                frame.bits - old(self).start,
                count,
            ),
    {
        self.holders.set((frame.bits - self.start) as usize, count);
    }
}

} // verus!
