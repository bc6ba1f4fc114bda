//! Thread identifiers, unique within a process: handed out from a counter, and reused once
//! returned, last returned first.
use vstd::prelude::*;

verus! {

/// A thread identifier.
pub type Tid = u64;

/// The `TidAllocator` struct hands out the identifiers that were returned, last returned first,
/// and otherwise the next value of its counter.
pub struct TidAllocator {
    pub state: Tid,
    pub deallocated_tid: Vec<Tid>,
}

impl TidAllocator {
    /// Identifiers in use: below the counter and not returned.
    pub open spec fn in_use(&self, tid: Tid) -> bool {
        tid < self.state && !self.deallocated_tid@.contains(tid)
    }

    /// The identifier that the allocator hands out next.
    pub open spec fn next(&self) -> Tid {
        if self.deallocated_tid@.len() > 0 {
            self.deallocated_tid@.last()
        } else {
            self.state
        }
    }

    pub open spec fn wf(&self) -> bool {
        &&& forall|i: int| 0 <= i < self.deallocated_tid@.len() ==> #[trigger] self.deallocated_tid@[i] < self.state
        &&& forall|i: int, j: int| 0 <= i < j < self.deallocated_tid@.len() ==> self.deallocated_tid@[i] != self.deallocated_tid@[j]
    }

    pub fn new() -> (r: Self)
        ensures
            r.wf(),
            r.state == 0,
            r.deallocated_tid@.len() == 0,
    {
        TidAllocator { state: 0, deallocated_tid: Vec::new() }
    }

    /// Hands out the last returned identifier, or else the counter, which then moves on.
    pub fn allocate(&mut self) -> (r: Tid)
        requires
            old(self).wf(),
            old(self).state < u64::MAX,
        ensures
            final(self).wf(),
            old(self).deallocated_tid@.len() > 0 ==> r == old(self).deallocated_tid@.last()
                && final(self).deallocated_tid@ == old(self).deallocated_tid@.drop_last()
                && final(self).state == old(self).state,
            old(self).deallocated_tid@.len() == 0 ==> r == old(self).state
                && final(self).state == old(self).state + 1
                && final(self).deallocated_tid@ == old(self).deallocated_tid@,
            r == old(self).next(),
            !old(self).in_use(r),
            final(self).in_use(r),
            forall|p: Tid| p != r ==> #[trigger] final(self).in_use(p) == old(self).in_use(p),
    {
        match self.deallocated_tid.pop() {
            Some(tid) => {
                proof {
                    let s = old(self).deallocated_tid@;
                    assert(s =~= self.deallocated_tid@.push(tid));
                    assert(s[s.len() - 1] == tid);
                    assert(!self.deallocated_tid@.contains(tid)) by {
                        if self.deallocated_tid@.contains(tid) {
                            let k = choose|k: int| 0 <= k < self.deallocated_tid@.len() && self.deallocated_tid@[k] == tid;
                            assert(s[k] == s[s.len() - 1]);
                        }
                    }
                    assert forall|p: Tid| p != tid implies #[trigger] self.in_use(p) == old(self).in_use(p) by {
                        if s.contains(p) {
                            let k = choose|k: int| 0 <= k < s.len() && s[k] == p;
                            assert(k < s.len() - 1);
                            assert(self.deallocated_tid@[k] == p);
                        }
                        if self.deallocated_tid@.contains(p) {
                            let k = choose|k: int| 0 <= k < self.deallocated_tid@.len() && self.deallocated_tid@[k] == p;
                            assert(s[k] == p);
                        }
                    }
                }
                tid
            },
            None => {
                let tid = self.state;
                self.state = self.state + 1;
                tid
            },
        }
    }

    /// Returns the identifier that the next `allocate` hands out.
    pub fn peek(&self) -> (r: Tid)
        ensures
            self.deallocated_tid@.len() > 0 ==> r == self.deallocated_tid@.last(),
            self.deallocated_tid@.len() == 0 ==> r == self.state,
    {
        let n = self.deallocated_tid.len();
        if n > 0 {
            self.deallocated_tid[n - 1]
        } else {
            self.state
        }
    }

    /// Returns an identifier in use; it is the next one handed out.
    pub fn deallocate(&mut self, tid: Tid)
        requires
            old(self).wf(),
            old(self).in_use(tid),
        ensures
            final(self).wf(),
            final(self).state == old(self).state,
            final(self).deallocated_tid@ == old(self).deallocated_tid@.push(tid),
            final(self).next() == tid,
            !final(self).in_use(tid),
            forall|p: Tid| p != tid ==> #[trigger] final(self).in_use(p) == old(self).in_use(p),
    {
        self.deallocated_tid.push(tid);
        proof {
            let s = old(self).deallocated_tid@;
            assert(self.deallocated_tid@[s.len() as int] == tid);
            assert forall|p: Tid| p != tid implies #[trigger] self.in_use(p) == old(self).in_use(p) by {
                if self.deallocated_tid@.contains(p) {
                    let k = choose|k: int| 0 <= k < self.deallocated_tid@.len() && self.deallocated_tid@[k] == p;
                    assert(s[k] == p);
                }
                if s.contains(p) {
                    let k = choose|k: int| 0 <= k < s.len() && s[k] == p;
                    assert(self.deallocated_tid@[k] == p);
                }
            }
        }
    }
}

} // verus!
