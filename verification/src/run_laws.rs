//! Laws of a tailoring run as a whole: how many attempts it makes, and what its events and
//! usage receipts say of them.

use vstd::prelude::*;
use crate::api_usage::UsageContext;
use crate::pipeline::{continues, progress_of, ProgressView, TailoringRun, MAX_TAILORING_ATTEMPTS};

verus! {

/// The states in which a run makes its model calls, in order: it starts as
/// `TailoringRun::new` leaves it, and each later call follows a step that continues the run.
pub open spec fn attempt_chain(rs: Seq<TailoringRun>) -> bool {
    &&& rs.len() > 0
    &&& rs[0].attempt == 1
    &&& rs[0].wf()
    &&& forall|i: int| 0 <= i < rs.len() - 1 ==> continues(#[trigger] rs[i], rs[i + 1])
}

/// A run makes at most `MAX_TAILORING_ATTEMPTS` model calls, and its k-th call is attempt k.
pub proof fn lemma_attempt_budget(rs: Seq<TailoringRun>)
    requires
        attempt_chain(rs),
    ensures
        rs.len() <= MAX_TAILORING_ATTEMPTS,
        forall|i: int| 0 <= i < rs.len() ==> (#[trigger] rs[i]).attempt == i + 1,
{
    assert forall|i: int| 0 <= i < rs.len() implies (#[trigger] rs[i]).attempt == i + 1 by {
        lemma_chain_attempt(rs, i);
    }
    lemma_chain_attempt(rs, rs.len() - 1);
}

proof fn lemma_chain_attempt(rs: Seq<TailoringRun>, i: int)
    requires
        attempt_chain(rs),
        0 <= i < rs.len(),
    ensures
        rs[i].attempt == i + 1,
        rs[i].wf(),
    decreases i,
{
    if i > 0 {
        lemma_chain_attempt(rs, i - 1);
        assert(continues(rs[i - 1], rs[i]));
    }
}

/// What a run reports: each event is `TailoringRun::event` of the state of some call, and the
/// events come in the order of those calls.
pub open spec fn reported_by(
    rs: Seq<TailoringRun>,
    events: Seq<ProgressView>,
    owner: Seq<int>,
) -> bool {
    &&& owner.len() == events.len()
    &&& forall|k: int|
        0 <= k < events.len() ==> {
            &&& 0 <= #[trigger] owner[k] < rs.len()
            &&& events[k] == progress_of(
                events[k].stage,
                events[k].status,
                events[k].message,
                Some(rs[owner[k]].attempt),
            )
        }
    &&& forall|k: int, l: int| 0 <= k <= l < events.len() ==> #[trigger] owner[k] <= #[trigger] owner[l]
}

/// Every event of a run carries an attempt between 1 and the budget, and the budget itself;
/// the attempts of successive events never decrease.
pub proof fn lemma_event_attempts(rs: Seq<TailoringRun>, events: Seq<ProgressView>, owner: Seq<int>)
    requires
        attempt_chain(rs),
        reported_by(rs, events, owner),
    ensures
        forall|k: int|
            0 <= k < events.len() ==> ({
                &&& (#[trigger] events[k]).attempt is Some
                &&& 1 <= events[k].attempt.unwrap() <= MAX_TAILORING_ATTEMPTS
                &&& events[k].total_attempts == Some(MAX_TAILORING_ATTEMPTS)
            }),
        forall|k: int, l: int|
            0 <= k <= l < events.len() ==> (#[trigger] events[k]).attempt.unwrap() <= (
            #[trigger] events[l]).attempt.unwrap(),
{
    lemma_attempt_budget(rs);
    assert forall|k: int|
        0 <= k < events.len() implies ({
            &&& (#[trigger] events[k]).attempt is Some
            &&& 1 <= events[k].attempt.unwrap() <= MAX_TAILORING_ATTEMPTS
            &&& events[k].total_attempts == Some(MAX_TAILORING_ATTEMPTS)
        }) by {
        assert(0 <= owner[k] < rs.len());
        assert(rs[owner[k]].attempt == owner[k] + 1);
    }
    assert forall|k: int, l: int|
        0 <= k <= l < events.len() implies (#[trigger] events[k]).attempt.unwrap() <= (
        #[trigger] events[l]).attempt.unwrap() by {
        assert(owner[k] <= owner[l]);
        assert(0 <= owner[k] < rs.len());
        assert(0 <= owner[l] < rs.len());
        assert(rs[owner[k]].attempt == owner[k] + 1);
        assert(rs[owner[l]].attempt == owner[l] + 1);
    }
}

/// The usage receipt of the k-th call of a run, built by `TailoringRun::usage_context`, is
/// tagged with the run's capture and with attempt k.
pub proof fn lemma_receipt_tags(rs: Seq<TailoringRun>, capture_id: Option<u64>, receipts: Seq<UsageContext>)
    requires
        attempt_chain(rs),
        receipts.len() == rs.len(),
        forall|k: int|
            0 <= k < rs.len() ==> (#[trigger] receipts[k]).capture_id == capture_id
                && receipts[k].attempt == Some(rs[k].attempt as u32),
    ensures
        forall|k: int|
            0 <= k < receipts.len() ==> (#[trigger] receipts[k]).capture_id == capture_id
                && receipts[k].attempt == Some((k + 1) as u32) && 1 <= k + 1 <= MAX_TAILORING_ATTEMPTS,
{
    lemma_attempt_budget(rs);
}

} // verus!
