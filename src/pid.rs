//! Process identifiers: handed out from a counter, and reused once returned, last returned first.
use vstd::prelude::*;

verus! {

/// A process identifier.
pub type Pid = u64;

/// The `PidHandle` struct holds an identifier handed out by a `PidAllocator`.
#[derive(Copy, Clone, PartialEq, Eq, Structural, Debug)]
pub struct PidHandle {
    pub pid: Pid,
}

impl PidHandle {
    pub fn new(pid: Pid) -> (r: Self)
        ensures
            r.pid == pid,
    {
        PidHandle { pid }
    }

    pub fn pid(&self) -> (r: Pid)
        ensures
            r == self.pid,
    {
        self.pid
    }
}

/// The `PidAllocator` struct hands out the identifiers that were returned, last returned first,
/// and otherwise the next value of its counter.
pub struct PidAllocator {
    pub state: Pid,
    pub deallocated_pid: Vec<Pid>,
}

impl PidAllocator {
    /// Identifiers in use: below the counter and not returned.
    pub open spec fn in_use(&self, pid: Pid) -> bool {
        pid < self.state && !self.deallocated_pid@.contains(pid)
    }

    /// The identifier that the allocator hands out next.
    pub open spec fn next(&self) -> Pid {
        if self.deallocated_pid@.len() > 0 {
            self.deallocated_pid@.last()
        } else {
            self.state
        }
    }

    pub open spec fn wf(&self) -> bool {
        &&& forall|i: int| 0 <= i < self.deallocated_pid@.len() ==> #[trigger] self.deallocated_pid@[i] < self.state
        &&& forall|i: int, j: int| 0 <= i < j < self.deallocated_pid@.len() ==> self.deallocated_pid@[i] != self.deallocated_pid@[j]
    }

    pub fn new() -> (r: Self)
        ensures
            r.wf(),
            r.state == 0,
            r.deallocated_pid@.len() == 0,
    {
        PidAllocator { state: 0, deallocated_pid: Vec::new() }
    }

    /// Hands out the last returned identifier, or else the counter, which then moves on.
    pub fn allocate(&mut self) -> (r: PidHandle)
        requires
            old(self).wf(),
            old(self).state < u64::MAX,
        ensures
            final(self).wf(),
            old(self).deallocated_pid@.len() > 0 ==> r.pid == old(self).deallocated_pid@.last()
                && final(self).deallocated_pid@ == old(self).deallocated_pid@.drop_last()
                && final(self).state == old(self).state,
            old(self).deallocated_pid@.len() == 0 ==> r.pid == old(self).state
                && final(self).state == old(self).state + 1
                && final(self).deallocated_pid@ == old(self).deallocated_pid@,
            r.pid == old(self).next(),
            !old(self).in_use(r.pid),
            final(self).in_use(r.pid),
            forall|p: Pid| p != r.pid ==> #[trigger] final(self).in_use(p) == old(self).in_use(p),
    {
        match self.deallocated_pid.pop() {
            Some(pid) => {
                proof {
                    let s = old(self).deallocated_pid@;
                    assert(s =~= self.deallocated_pid@.push(pid));
                    assert(s[s.len() - 1] == pid);
                    assert(!self.deallocated_pid@.contains(pid)) by {
                        if self.deallocated_pid@.contains(pid) {
                            let k = choose|k: int| 0 <= k < self.deallocated_pid@.len() && self.deallocated_pid@[k] == pid;
                            assert(s[k] == s[s.len() - 1]);
                        }
                    }
                    assert forall|p: Pid| p != pid implies #[trigger] self.in_use(p) == old(self).in_use(p) by {
                        if s.contains(p) {
                            let k = choose|k: int| 0 <= k < s.len() && s[k] == p;
                            assert(k < s.len() - 1);
                            assert(self.deallocated_pid@[k] == p);
                        }
                        if self.deallocated_pid@.contains(p) {
                            let k = choose|k: int| 0 <= k < self.deallocated_pid@.len() && self.deallocated_pid@[k] == p;
                            assert(s[k] == p);
                        }
                    }
                }
                PidHandle::new(pid)
            },
            None => {
                let handle = PidHandle::new(self.state);
                self.state = self.state + 1;
                handle
            },
        }
    }

    /// Returns the identifier that the next `allocate` hands out.
    pub fn peek(&self) -> (r: Pid)
        ensures
            self.deallocated_pid@.len() > 0 ==> r == self.deallocated_pid@.last(),
            self.deallocated_pid@.len() == 0 ==> r == self.state,
    {
        let n = self.deallocated_pid.len();
        if n > 0 {
            self.deallocated_pid[n - 1]
        } else {
            self.state
        }
    }

    /// Returns an identifier in use; it is the next one handed out.
    pub fn deallocate(&mut self, pid: Pid)
        requires
            old(self).wf(),
            old(self).in_use(pid),
        ensures
            final(self).wf(),
            final(self).state == old(self).state,
            final(self).deallocated_pid@ == old(self).deallocated_pid@.push(pid),
            final(self).next() == pid,
            !final(self).in_use(pid),
            forall|p: Pid| p != pid ==> #[trigger] final(self).in_use(p) == old(self).in_use(p),
    {
        self.deallocated_pid.push(pid);
        proof {
            let s = old(self).deallocated_pid@;
            assert(self.deallocated_pid@[s.len() as int] == pid);
            assert forall|p: Pid| p != pid implies #[trigger] self.in_use(p) == old(self).in_use(p) by {
                if self.deallocated_pid@.contains(p) {
                    let k = choose|k: int| 0 <= k < self.deallocated_pid@.len() && self.deallocated_pid@[k] == p;
                    assert(s[k] == p);
                }
                if s.contains(p) {
                    let k = choose|k: int| 0 <= k < s.len() && s[k] == p;
                    assert(self.deallocated_pid@[k] == p);
                }
            }
        }
    }
}

/// Hands out an identifier from `allocator`.
pub fn allocate_pid(allocator: &mut PidAllocator) -> (r: PidHandle)
    requires
        old(allocator).wf(),
        old(allocator).state < u64::MAX,
    ensures
        final(allocator).wf(),
        !old(allocator).in_use(r.pid),
        final(allocator).in_use(r.pid),
        forall|p: Pid| p != r.pid ==> #[trigger] final(allocator).in_use(p) == old(allocator).in_use(p),
        old(allocator).deallocated_pid@.len() > 0 ==> r.pid == old(allocator).deallocated_pid@.last(),
        old(allocator).deallocated_pid@.len() == 0 ==> r.pid == old(allocator).state,
{
    allocator.allocate()
}

} // verus!
