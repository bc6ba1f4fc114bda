//! Publish-subscribe wake-ups: a set of pending events, and the tasks waiting for them.
use vstd::prelude::*;

verus! {

/// A child process has quit.
pub const CHILD_PROCESS_QUIT: u32 = 1;

/// A task waiting for any of the events of a mask.
#[derive(Copy, Clone, PartialEq, Eq, Structural, Debug)]
pub struct Subscription {
    pub task: u64,
    pub event: u32,
}

/// The tasks among the first `n` subscriptions that an event wakes, in order.
pub open spec fn woken(subscriptions: Seq<Subscription>, event: u32, n: int) -> Seq<u64>
    decreases n,
{
    if n <= 0 {
        Seq::empty()
    } else if subscriptions[n - 1].event & event != 0 {
        woken(subscriptions, event, n - 1).push(subscriptions[n - 1].task)
    } else {
        woken(subscriptions, event, n - 1)
    }
}

/// The subscriptions among the first `n` that an event leaves waiting, in order.
pub open spec fn waiting(subscriptions: Seq<Subscription>, event: u32, n: int) -> Seq<Subscription>
    decreases n,
{
    if n <= 0 {
        Seq::empty()
    } else if subscriptions[n - 1].event & event != 0 {
        waiting(subscriptions, event, n - 1)
    } else {
        waiting(subscriptions, event, n - 1).push(subscriptions[n - 1])
    }
}

/// The `EventBus` struct holds the pending events as bits, and one-shot subscriptions.
pub struct EventBus {
    pub event: u32,
    pub callback_list: Vec<Subscription>,
}

impl EventBus {
    /// Creates a bus with no pending event and no subscription.
    pub fn new() -> (r: Self)
        ensures
            r.event == 0,
            r.callback_list@.len() == 0,
    {
        EventBus { event: 0, callback_list: Vec::new() }
    }

    /// Publishes an event: it becomes pending, and the subscriptions it matches fire once and
    /// are dropped. Returns the tasks to wake, in subscription order.
    pub fn push(&mut self, event: u32) -> (r: Vec<u64>)
        ensures
            final(self).event == old(self).event | event,
            r@ == woken(old(self).callback_list@, event, old(self).callback_list@.len() as int),
            final(self).callback_list@ == waiting(old(self).callback_list@, event, old(self).callback_list@.len() as int),
    {
        self.event = self.event | event;
        let mut tasks: Vec<u64> = Vec::new();
        let mut remaining: Vec<Subscription> = Vec::new();
        let mut i: usize = 0;
        while i < self.callback_list.len()
            invariant
                i <= self.callback_list@.len(),
                self.callback_list@ == old(self).callback_list@,
                tasks@ == woken(self.callback_list@, event, i as int),
                remaining@ == waiting(self.callback_list@, event, i as int),
            decreases self.callback_list@.len() - i,
        {
            let subscription = self.callback_list[i];
            if subscription.event & event != 0 {
                tasks.push(subscription.task);
            } else {
                remaining.push(subscription);
            }
            i = i + 1;
        }
        self.callback_list = remaining;
        tasks
    }

    /// Clears an event.
    pub fn clear(&mut self, event: u32)
        ensures
            final(self).event == old(self).event & !event,
            final(self).callback_list@ == old(self).callback_list@,
    {
        self.event = self.event & !event;
    }

    /// Adds a one-shot subscription of a task to the events of a mask.
    pub fn subscribe(&mut self, task: u64, event: u32)
        ensures
            final(self).event == old(self).event,
            final(self).callback_list@ == old(self).callback_list@.push(Subscription { task, event }),
    {
        self.callback_list.push(Subscription { task, event });
    }

    /// Returns `true` if every event of the mask is pending.
    pub fn contains(&self, event: u32) -> (r: bool)
        ensures
            r == (self.event & event == event),
    {
        self.event & event == event
    }
}

/// One poll of a task that waits for an event: ready when every event of the mask is pending;
/// otherwise the task subscribes and waits.
pub fn wait_for_event(event_bus: &mut EventBus, task: u64, subscribed_event: u32) -> (r: bool)
    ensures
        r == (old(event_bus).event & subscribed_event == subscribed_event),
        final(event_bus).event == old(event_bus).event,
        r ==> final(event_bus).callback_list@ == old(event_bus).callback_list@,
        !r ==> final(event_bus).callback_list@ == old(event_bus).callback_list@.push(
            Subscription { task, event: subscribed_event },
        ),
{
    if event_bus.contains(subscribed_event) {
        true
    } else {
        event_bus.subscribe(task, subscribed_event);
        false
    }
}

} // verus!
