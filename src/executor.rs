//! The run queue of the cooperative executor, the yield primitive, and what a thread does after
//! a trap.
use vstd::prelude::*;

verus! {

/// What a thread does before it returns to user space.
#[derive(Copy, Clone, PartialEq, Eq, Structural, Debug)]
pub enum ControlFlow {
    /// Return to user space at once.
    Continue,
    /// Let the other tasks run first.
    Yield,
    /// Leave with an exit code.
    Exit(u64),
}

/// The `TaskQueue` struct is the FIFO queue of runnable tasks.
pub struct TaskQueue {
    pub queue: std::collections::VecDeque<u64>,
}

/// The queue after its first task was moved to the back.
pub open spec fn rotate_once(s: Seq<u64>) -> Seq<u64> {
    if s.len() == 0 {
        s
    } else {
        s.drop_first().push(s[0])
    }
}

/// The queue after `k` rounds in which the first task was moved to the back.
pub open spec fn rotated(s: Seq<u64>, k: nat) -> Seq<u64>
    decreases k,
{
    if k == 0 {
        s
    } else {
        rotate_once(rotated(s, (k - 1) as nat))
    }
}

impl TaskQueue {
    pub open spec fn view(&self) -> Seq<u64> {
        self.queue@
    }

    pub fn new() -> (r: Self)
        ensures
            r.view().len() == 0,
    {
        TaskQueue { queue: std::collections::VecDeque::new() }
    }

    /// Puts a task at the back of the queue.
    pub fn schedule(&mut self, task: u64)
        ensures
            final(self).view() == old(self).view().push(task),
    {
        self.queue.push_back(task);
    }

    /// Takes the task at the front of the queue.
    pub fn task(&mut self) -> (r: Option<u64>)
        ensures
            old(self).view().len() == 0 ==> r is None && final(self).view() == old(self).view(),
            old(self).view().len() > 0 ==> r == Some(old(self).view()[0])
                && final(self).view() == old(self).view().drop_first(),
    {
        self.queue.pop_front()
    }

    pub fn len(&self) -> (r: usize)
        ensures
            r == self.view().len(),
    {
        self.queue.len()
    }
}

/// Makes a new task runnable: it goes to the back of the queue.
pub fn spawn_thread(queue: &mut TaskQueue, task: u64)
    ensures
        final(queue).view() == old(queue).view().push(task),
{
    queue.schedule(task);
}

/// The `YieldFuture` struct gives way once: its first poll wakes its task and is pending, its
/// second is ready.
pub struct YieldFuture {
    pub state: bool,
}

impl YieldFuture {
    pub fn new() -> (r: Self)
        ensures
            !r.state,
    {
        YieldFuture { state: false }
    }

    /// Polls the future for `task`: ready when it had already given way; otherwise `task` goes
    /// to the back of the queue and the poll is pending.
    pub fn poll(&mut self, task: u64, queue: &mut TaskQueue) -> (r: bool)
        ensures
            r == old(self).state,
            final(self).state,
            r ==> final(queue).view() == old(queue).view(),
            !r ==> final(queue).view() == old(queue).view().push(task),
    {
        if self.state {
            return true;
        }
        self.state = true;
        queue.schedule(task);
        false
    }
}

/// Runs the task at the front of the queue up to a `yield_now`: its first poll of the yield
/// future sends it to the back of the queue. Returns the task, or `None` on an empty queue.
pub fn yield_now(queue: &mut TaskQueue) -> (r: Option<u64>)
    ensures
        final(queue).view() == rotate_once(old(queue).view()),
        old(queue).view().len() > 0 ==> r == Some(old(queue).view()[0]),
        old(queue).view().len() == 0 ==> r is None,
{
    match queue.task() {
        None => None,
        Some(task) => {
            let mut future = YieldFuture::new();
            let ready = future.poll(task, queue);
            assert(!ready);
            Some(task)
        },
    }
}

/// `k` yields in a row, each by the task at the front, rotate the queue by `k`: the first `k`
/// tasks move, in order, behind the others.
pub proof fn lemma_yields_rotate(s: Seq<u64>, k: nat)
    requires
        k <= s.len(),
    ensures
        rotated(s, k) == s.subrange(k as int, s.len() as int) + s.subrange(0, k as int),
    decreases k,
{
    if k == 0 {
        assert(s.subrange(0, s.len() as int) + s.subrange(0, 0) =~= s);
    } else {
        lemma_yields_rotate(s, (k - 1) as nat);
        let prev = rotated(s, (k - 1) as nat);
        assert(prev == s.subrange(k - 1, s.len() as int) + s.subrange(0, k - 1));
        assert(prev.len() == s.len());
        assert(prev[0] == s[k - 1]);
        assert(rotate_once(prev) =~= s.subrange(k as int, s.len() as int) + s.subrange(0, k as int));
    }
}

} // verus!
