//! The waiter unit's decisions.
//!
//! One waiter runs per requested path: it resolves the path (see
//! [`crate::paths::absolute_path`]), hands it to the blocking
//! existence probe, and emits at most one message. Only a probe
//! success is reported to the coordinator; a definitive probe error
//! is logged by the surrounding program and nothing is sent, so the
//! coordinator never hears of that path.

use vstd::prelude::*;

verus! {

/// What the blocking existence probe reported for one path: the path
/// became readable, or the probe gave up with a definitive error.
#[derive(Debug, PartialEq, Eq, Clone, Copy)]
pub enum ProbeOutcome {
    Ready,
    Failed,
}

/// The single message a waiter emits for `path` after its probe
/// came back: the resolved path when the probe succeeded, nothing
/// when it failed.
pub fn waiter_message(path: Vec<u8>, probe: ProbeOutcome) -> (r: Option<Vec<u8>>)
    ensures
        probe is Ready ==> r == Some(path),
        probe is Failed ==> r is None,
{
    match probe {
        ProbeOutcome::Ready => Some(path),
        ProbeOutcome::Failed => None,
    }
}

/// How many of `probes` found their path readable — exactly the
/// number of messages the waiters collectively emit.
pub open spec fn emitted_count(probes: Seq<ProbeOutcome>) -> nat
    decreases probes.len(),
{
    if probes.len() == 0 {
        0
    } else {
        emitted_count(probes.drop_last()) + if probes.last() is Ready {
            1nat
        } else {
            0nat
        }
    }
}

/// When every probe finds its path readable, every waiter emits a
/// message: all requested paths are reported.
pub proof fn lemma_all_ready_emit_all(probes: Seq<ProbeOutcome>)
    requires
        forall|i: int| 0 <= i < probes.len() ==> probes[i] is Ready,
    ensures
        emitted_count(probes) == probes.len(),
    decreases probes.len(),
{
    if probes.len() > 0 {
        assert(forall|i: int|
            0 <= i < probes.len() - 1 ==> probes.drop_last()[i] == probes[i]);
        lemma_all_ready_emit_all(probes.drop_last());
    }
}

/// When exactly one probe fails while every other succeeds, the
/// waiters emit one message fewer than there are requests — the
/// failed path is never reported.
pub proof fn lemma_one_failure_starves(probes: Seq<ProbeOutcome>, k: int)
    requires
        0 <= k < probes.len(),
        probes[k] is Failed,
        forall|i: int| 0 <= i < probes.len() && i != k ==> probes[i] is Ready,
    ensures
        emitted_count(probes) == probes.len() - 1,
    decreases probes.len(),
{
    assert(forall|i: int| 0 <= i < probes.len() - 1 ==> probes.drop_last()[i] == probes[i]);
    if k == probes.len() - 1 {
        lemma_all_ready_emit_all(probes.drop_last());
    } else {
        lemma_one_failure_starves(probes.drop_last(), k);
    }
}

/// When every probe succeeds and every emitted message is delivered,
/// the coordinator's count reaches exactly the number of requests:
/// the drain loop terminates and every path is reported.
pub proof fn lemma_all_ready_completes(
    probes: Seq<ProbeOutcome>,
    events: Seq<crate::coordinator::Recv>,
)
    requires
        forall|i: int| 0 <= i < probes.len() ==> probes[i] is Ready,
        crate::coordinator::message_count(events) == emitted_count(probes),
    ensures
        crate::coordinator::run_count(0, events) == probes.len(),
{
    lemma_all_ready_emit_all(probes);
    crate::coordinator::lemma_count_is_message_count(0, events);
}

/// One definitive probe error starves the coordinator: with every
/// emitted message delivered, its count stays short of the number of
/// requests, so the final all-resolved signal is never emitted.
pub proof fn lemma_one_failure_blocks_completion(
    probes: Seq<ProbeOutcome>,
    events: Seq<crate::coordinator::Recv>,
    k: int,
)
    requires
        0 <= k < probes.len(),
        probes[k] is Failed,
        forall|i: int| 0 <= i < probes.len() && i != k ==> probes[i] is Ready,
        crate::coordinator::message_count(events) == emitted_count(probes),
    ensures
        crate::coordinator::run_count(0, events) < probes.len(),
{
    lemma_one_failure_starves(probes, k);
    crate::coordinator::lemma_missing_success_blocks(events, probes.len() as nat);
}

} // verus!
