//! When a backchannel is there, and what a proof comes to.

use std::time::Instant;
use tokio::sync::oneshot;
use vstd::prelude::*;

use super::following::why_it_ends;
use super::rounds::session_round_leaves_backchannels;
use crate::backchannel::{BackchannelProofKey, BackchannelReply, ProofWaitView, StartView};
use crate::events::ResultView;
use crate::keyed::{lemma_value_without_key, unique_keys};
use crate::message::LxMessageView;
use crate::model::{ManagerState, SessionObservation, StartObservation};

verus! {

/// A destination has a link once a backchannel is registered for it, however long its
/// Direct link has been idle.
pub proof fn registered_backchannel_is_available(
    state: ManagerState,
    dest_hash: [u8; 16],
    link_id: [u8; 16],
    idle: u128,
)
    ensures
        ({
            let after = ManagerState {
                backchannel_links: state.backchannel_links.insert(dest_hash, link_id),
                ..state
            };
            &&& after.link_available(dest_hash, idle)
            &&& after.backchannel_snapshot(dest_hash) matches Some(snapshot)
            &&& snapshot.link_id == link_id
        }),
{
}

/// Without its backchannel a destination has a link only if it has a Direct link.
pub proof fn forgotten_backchannel_is_unavailable(
    state: ManagerState,
    dest_hash: [u8; 16],
    idle: u128,
)
    ensures
        ({
            let after = state.without_backchannel(dest_hash);
            &&& after.link_available(dest_hash, idle) ==> state.cached_session(dest_hash) is Some
            &&& after.backchannel_snapshot(dest_hash) is None
        }),
{
}

/// A closed inbound link takes every backchannel over it, and no other.
pub proof fn closed_link_takes_its_backchannels(
    state: ManagerState,
    link_id: [u8; 16],
    reason: Seq<char>,
    dest_hash: [u8; 16],
)
    ensures
        ({
            let after = state.fail_backchannel_link(link_id, reason).state.backchannel_links;
            if state.backchannel_links.contains_key(dest_hash)
                && state.backchannel_links[dest_hash] != link_id {
                after.contains_key(dest_hash) && after[dest_hash]
                    == state.backchannel_links[dest_hash]
            } else {
                !after.contains_key(dest_hash)
            }
        }),
{
}

/// Whether every message that was handed back has lost its backchannel.
pub open spec fn failed_backchannels_gone(state: ManagerState, results: Seq<ResultView>) -> bool {
    forall|i: int|
        0 <= i < results.len() ==> ((#[trigger] results[i]) matches ResultView::Failed {
            dest_hash,
            ..
        } ==> !state.backchannel_links.contains_key(dest_hash))
}

/// Whether every backchannel of one state is one of another.
pub open spec fn backchannels_within(after: ManagerState, before: ManagerState) -> bool {
    forall|d: [u8; 16]| #[trigger]
        after.backchannel_links.contains_key(d) ==> before.backchannel_links.contains_key(d)
            && after.backchannel_links[d] == before.backchannel_links[d]
}

/// What is gone stays gone while no backchannel is registered.
proof fn lemma_gone_then(
    first: ManagerState,
    handed_first: Seq<ResultView>,
    then: ManagerState,
    handed_then: Seq<ResultView>,
)
    requires
        failed_backchannels_gone(first, handed_first),
        failed_backchannels_gone(then, handed_then),
        backchannels_within(then, first),
    ensures
        failed_backchannels_gone(then, handed_first + handed_then),
{
    let results = handed_first + handed_then;
    let n = handed_first.len() as int;
    assert forall|i: int| 0 <= i < results.len() implies ((#[trigger] results[i]) matches
        ResultView::Failed { dest_hash, .. } ==> !then.backchannel_links.contains_key(
        dest_hash,
    )) by {
        if i < n {
            assert(results[i] == handed_first[i]);
            if let ResultView::Failed { dest_hash, .. } = handed_first[i] {
                assert(!first.backchannel_links.contains_key(dest_hash));
            }
        } else {
            assert(results[i] == handed_then[i - n]);
        }
    }
}

proof fn lemma_starts_give_up(
    state: ManagerState,
    starts: Seq<StartView>,
    seen: Seq<StartObservation>,
)
    ensures
        ({
            let after = state.settle_starts(starts, seen);
            &&& failed_backchannels_gone(after.state, after.results)
            &&& backchannels_within(after.state, state)
        }),
    decreases starts.len(),
{
    if starts.len() > 0 {
        lemma_starts_give_up(state, starts.drop_last(), seen.drop_last());
        let before = state.settle_starts(starts.drop_last(), seen.drop_last());
        let last = before.state.settle_start(starts.last(), seen.last());
        assert(backchannels_within(last.state, before.state));
        assert(failed_backchannels_gone(last.state, last.results));
        lemma_gone_then(before.state, before.results, last.state, last.results);
    }
}

proof fn lemma_waits_give_up(
    state: ManagerState,
    waits: Seq<(BackchannelProofKey, ProofWaitView)>,
    ages: Seq<u128>,
)
    ensures
        ({
            let after = state.age_waits(waits, ages);
            &&& failed_backchannels_gone(after.state, after.results)
            &&& backchannels_within(after.state, state)
        }),
    decreases waits.len(),
{
    if waits.len() > 0 {
        lemma_waits_give_up(state, waits.drop_last(), ages.drop_last());
        let before = state.age_waits(waits.drop_last(), ages.drop_last());
        let last = before.state.age_wait(waits.last(), ages.last());
        assert(backchannels_within(last.state, before.state));
        assert(failed_backchannels_gone(last.state, last.results));
        lemma_gone_then(before.state, before.results, last.state, last.results);
    }
}

/// A round registers no backchannel, and gives up that of every message that the
/// backchannels hand back: its destination has no backchannel afterwards.
pub proof fn failed_send_gives_its_backchannel_up(
    state: ManagerState,
    seen: Seq<StartObservation>,
    ages: Seq<u128>,
)
    ensures
        ({
            let after = state.tick_backchannels(seen, ages);
            &&& failed_backchannels_gone(after.state, after.results)
            &&& backchannels_within(after.state, state)
        }),
{
    lemma_starts_give_up(ManagerState { starts: Seq::empty(), ..state }, state.starts, seen);
    let answered = state.answered(seen);
    lemma_waits_give_up(
        ManagerState { waits: Seq::empty(), ..answered.state },
        answered.state.waits,
        ages,
    );
    let aged = answered.state.aged(ages);
    lemma_gone_then(answered.state, answered.results, aged.state, aged.results);
}

/// Whether a send command to a destination ends without success with what was seen.
pub open spec fn command_ends(
    starts: Seq<StartView>,
    seen: Seq<StartObservation>,
    dest_hash: [u8; 16],
) -> bool {
    exists|i: int|
        0 <= i < starts.len() && starts[i].dest_hash == dest_hash && why_it_ends(
            #[trigger] seen[i],
        ) is Some
}

/// Whether a send to a destination has waited for its proof for too long.
pub open spec fn wait_ends(
    waits: Seq<(BackchannelProofKey, ProofWaitView)>,
    ages: Seq<u128>,
    dest_hash: [u8; 16],
) -> bool {
    exists|i: int|
        0 <= i < waits.len() && waits[i].1.dest_hash == dest_hash && #[trigger] ages[i]
            > 360_000_000_000
}

proof fn lemma_starts_keep_backchannel(
    state: ManagerState,
    starts: Seq<StartView>,
    seen: Seq<StartObservation>,
    dest_hash: [u8; 16],
)
    requires
        seen.len() == starts.len(),
    ensures
        ({
            let after = state.settle_starts(starts, seen).state.backchannel_links;
            &&& after.contains_key(dest_hash) <==> state.backchannel_links.contains_key(dest_hash)
                && !command_ends(starts, seen, dest_hash)
            &&& after.contains_key(dest_hash) ==> after[dest_hash]
                == state.backchannel_links[dest_hash]
        }),
    decreases starts.len(),
{
    if starts.len() > 0 {
        let (fewer, less) = (starts.drop_last(), seen.drop_last());
        let last = starts.len() - 1;
        lemma_starts_keep_backchannel(state, fewer, less, dest_hash);
        if command_ends(fewer, less, dest_hash) {
            let i = choose|i: int|
                0 <= i < fewer.len() && fewer[i].dest_hash == dest_hash && why_it_ends(
                    #[trigger] less[i],
                ) is Some;
            assert(seen[i] == less[i]);
        }
        if command_ends(starts, seen, dest_hash) {
            let i = choose|i: int|
                0 <= i < starts.len() && starts[i].dest_hash == dest_hash && why_it_ends(
                    #[trigger] seen[i],
                ) is Some;
            if i < last {
                assert(less[i] == seen[i]);
            }
        }
        assert(seen[last] == seen.last());
    }
}

proof fn lemma_waits_keep_backchannel(
    state: ManagerState,
    waits: Seq<(BackchannelProofKey, ProofWaitView)>,
    ages: Seq<u128>,
    dest_hash: [u8; 16],
)
    requires
        ages.len() == waits.len(),
    ensures
        ({
            let after = state.age_waits(waits, ages).state.backchannel_links;
            &&& after.contains_key(dest_hash) <==> state.backchannel_links.contains_key(dest_hash)
                && !wait_ends(waits, ages, dest_hash)
            &&& after.contains_key(dest_hash) ==> after[dest_hash]
                == state.backchannel_links[dest_hash]
        }),
    decreases waits.len(),
{
    if waits.len() > 0 {
        let (fewer, less) = (waits.drop_last(), ages.drop_last());
        let last = waits.len() - 1;
        lemma_waits_keep_backchannel(state, fewer, less, dest_hash);
        if wait_ends(fewer, less, dest_hash) {
            let i = choose|i: int|
                0 <= i < fewer.len() && fewer[i].1.dest_hash == dest_hash && #[trigger] less[i]
                    > 360_000_000_000;
            assert(ages[i] == less[i]);
        }
        if wait_ends(waits, ages, dest_hash) {
            let i = choose|i: int|
                0 <= i < waits.len() && waits[i].1.dest_hash == dest_hash && #[trigger] ages[i]
                    > 360_000_000_000;
            if i < last {
                assert(less[i] == ages[i]);
            }
        }
        assert(ages[last] == ages.last());
    }
}

/// In a round a destination loses its backchannel exactly if a send command to it ends
/// without success or a send to it has waited for its proof for too long; any other
/// backchannel stays as it is.
pub proof fn round_keeps_backchannels_that_work(
    state: ManagerState,
    starts_seen: Seq<StartObservation>,
    ages: Seq<u128>,
    sessions_seen: Seq<SessionObservation>,
    dest_hash: [u8; 16],
)
    requires
        state.saw(starts_seen, ages, sessions_seen),
    ensures
        ({
            let after = state.tick(starts_seen, ages, sessions_seen).state.backchannel_links;
            let waits = state.answered(starts_seen).state.waits;
            &&& after.contains_key(dest_hash) <==> {
                &&& state.backchannel_links.contains_key(dest_hash)
                &&& !command_ends(state.starts, starts_seen, dest_hash)
                &&& !wait_ends(waits, ages, dest_hash)
            }
            &&& after.contains_key(dest_hash) ==> after[dest_hash]
                == state.backchannel_links[dest_hash]
        }),
{
    let answered = state.answered(starts_seen).state;
    lemma_starts_keep_backchannel(
        ManagerState { starts: Seq::empty(), ..state },
        state.starts,
        starts_seen,
        dest_hash,
    );
    lemma_waits_keep_backchannel(
        ManagerState { waits: Seq::empty(), ..answered },
        answered.waits,
        ages,
        dest_hash,
    );
    session_round_leaves_backchannels(
        state.tick_backchannels(starts_seen, ages).state,
        sessions_seen,
    );
}

/// A proof completes a send once: a second proof of the same kind finds nothing, and
/// every other send goes on waiting for its own.
pub proof fn proof_completes_once(
    state: ManagerState,
    key: BackchannelProofKey,
    other: BackchannelProofKey,
)
    requires
        unique_keys(state.waits),
        state.proof_result(key) is Some,
    ensures
        state.proved(key).proof_result(key) is None,
        other != key ==> state.proved(key).proof_result(other) == state.proof_result(other),
{
    lemma_value_without_key(state.waits, key, key);
    lemma_value_without_key(state.waits, key, other);
}

/// What goes on over backchannels leaves the sessions coherent.
pub proof fn backchannels_keep_coherence(
    state: ManagerState,
    message: LxMessageView,
    dest_hash: [u8; 16],
    link_id: [u8; 16],
    receiver: oneshot::Receiver<BackchannelReply>,
    now: Instant,
    key: BackchannelProofKey,
    reason: Seq<char>,
)
    requires
        state.coherent(),
    ensures
        state.backchannel_started(message, dest_hash, link_id, receiver, now).coherent(),
        state.without_backchannel(dest_hash).coherent(),
        state.proved(key).coherent(),
        state.fail_backchannel_link(link_id, reason).state.coherent(),
{
}

} // verus!
