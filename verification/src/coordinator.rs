//! The completion coordinator.
//!
//! One waiter runs per requested path and funnels at most one
//! success message into a shared channel. The coordinator drains that
//! channel: each message raises its count by one, and its loop runs
//! exactly while the count is below the number of requests. Hearing
//! that every sender is gone before the count is full is a fatal
//! state, surfaced as [`Action::Abort`].
//!
//! The specification models a whole drain as a fold over the sequence
//! of channel events, so that what holds of any interleaving of
//! arrivals can be stated and proved: the count equals the number of
//! success messages heard, never more.

use vstd::prelude::*;

verus! {

/// What the coordinator hears from the shared outcome channel: one
/// success message carrying a resolved path, or the news that every
/// sender is gone.
#[derive(Debug, PartialEq, Eq)]
pub enum Recv {
    Message(Vec<u8>),
    Disconnected,
}

/// What the coordinator does with one channel event: print that the
/// carried path exists, or abort the run because no sender is left
/// while paths are still missing.
#[derive(Debug, PartialEq, Eq)]
pub enum Action {
    PrintExists(Vec<u8>),
    Abort,
}

/// The count after one channel event: a success message raises it by
/// one, a disconnect leaves it alone.
pub open spec fn step_count(c: nat, r: Recv) -> nat {
    match r {
        Recv::Message(_) => c + 1,
        Recv::Disconnected => c,
    }
}

/// The action one channel event calls for.
pub open spec fn action_of(r: Recv) -> Action {
    match r {
        Recv::Message(p) => Action::PrintExists(p),
        Recv::Disconnected => Action::Abort,
    }
}

/// The count after a whole sequence of channel events, starting from
/// `c`.
pub open spec fn run_count(c: nat, events: Seq<Recv>) -> nat
    decreases events.len(),
{
    if events.len() == 0 {
        c
    } else {
        step_count(run_count(c, events.drop_last()), events.last())
    }
}

/// How many of `events` are success messages.
pub open spec fn message_count(events: Seq<Recv>) -> nat
    decreases events.len(),
{
    if events.len() == 0 {
        0
    } else {
        message_count(events.drop_last()) + if events.last() is Message {
            1nat
        } else {
            0nat
        }
    }
}

/// Whether every one of `events` is a success message.
pub open spec fn all_messages(events: Seq<Recv>) -> bool {
    forall|i: int| 0 <= i < events.len() ==> events[i] is Message
}

/// The paths printed while draining `events`, in arrival order.
pub open spec fn printed_paths(events: Seq<Recv>) -> Seq<Seq<u8>>
    decreases events.len(),
{
    if events.len() == 0 {
        Seq::empty()
    } else if events.last() is Message {
        printed_paths(events.drop_last()).push(events.last()->0@)
    } else {
        printed_paths(events.drop_last())
    }
}

/// The coordinator's state: how many of the `total` requested paths
/// have been heard of as resolved.
pub struct Coordinator {
    total: usize,
    count: usize,
}

impl Coordinator {
    /// The number of requested paths.
    pub closed spec fn total(&self) -> nat {
        self.total as nat
    }

    /// The number of success messages heard so far.
    pub closed spec fn count(&self) -> nat {
        self.count as nat
    }

    /// The coordinator never counts past the number of requests.
    pub closed spec fn wf(&self) -> bool {
        self.count <= self.total
    }

    /// A coordinator for `total` requested paths, with nothing heard
    /// yet.
    pub fn new(total: usize) -> (c: Coordinator)
        ensures
            c.wf(),
            c.total() == total,
            c.count() == 0,
    {
        Coordinator { total, count: 0 }
    }

    /// Whether the drain loop must keep listening: some requested
    /// path has not been heard of yet.
    pub fn pending(&self) -> (r: bool)
        ensures
            r == (self.count() < self.total()),
    {
        self.count < self.total
    }

    /// Whether every requested path has been heard of as resolved:
    /// only then may the final all-resolved signal be emitted.
    pub fn all_resolved(&self) -> (r: bool)
        ensures
            r == (self.count() == self.total()),
    {
        self.count == self.total
    }

    /// Takes one channel event while some path is still missing:
    /// counts a success message and asks for its path to be printed,
    /// or asks for an abort when every sender is gone.
    pub fn receive(&mut self, r: Recv) -> (a: Action)
        requires
            old(self).wf(),
            old(self).count() < old(self).total(),
        ensures
            final(self).wf(),
            final(self).total() == old(self).total(),
            final(self).count() == step_count(old(self).count(), r),
            a == action_of(r),
    {
        match r {
            Recv::Message(p) => {
                self.count = self.count + 1;
                Action::PrintExists(p)
            },
            Recv::Disconnected => Action::Abort,
        }
    }
}

/// The count a drain reaches is exactly the number of success
/// messages it heard: every message counts once, nothing else counts.
pub proof fn lemma_count_is_message_count(c: nat, events: Seq<Recv>)
    ensures
        run_count(c, events) == c + message_count(events),
    decreases events.len(),
{
    if events.len() > 0 {
        lemma_count_is_message_count(c, events.drop_last());
    }
}

/// When all requested paths resolve, in whatever order their
/// messages arrive, the count reaches exactly the number of requests
/// and each arrival's path is printed exactly once, in arrival order.
pub proof fn lemma_all_resolved(events: Seq<Recv>)
    requires
        all_messages(events),
    ensures
        run_count(0, events) == events.len(),
        printed_paths(events).len() == events.len(),
        forall|i: int| 0 <= i < events.len() ==> printed_paths(events)[i] == events[i]->0@,
    decreases events.len(),
{
    if events.len() > 0 {
        assert(all_messages(events.drop_last())) by {
            assert(forall|i: int|
                0 <= i < events.len() - 1 ==> events.drop_last()[i] == events[i]);
        }
        lemma_all_resolved(events.drop_last());
        assert(forall|i: int|
            0 <= i < events.len() - 1 ==> printed_paths(events)[i] == printed_paths(
                events.drop_last(),
            )[i]);
    }
}

/// While fewer success messages have arrived than paths were
/// requested, the count stays short of the total: the drain loop does
/// not exit and the final all-resolved signal is not emitted.
pub proof fn lemma_missing_success_blocks(events: Seq<Recv>, n: nat)
    requires
        message_count(events) < n,
    ensures
        run_count(0, events) < n,
{
    lemma_count_is_message_count(0, events);
}

} // verus!
