//! The counts balance: every operation accounts for the deliveries that it takes, keeps
//! and ends.

use std::time::Instant;
use tokio::sync::oneshot;
use vstd::prelude::*;

use super::ledger::{
    attaching_adds_the_message, closed_link_accounts_for_every_message, deliveries_are_counted,
    failing_by_hash_accounts_for_every_message, of_results, opening_adds_the_message,
    receipts_fresh, releasing_loses_no_message, round_accounts_for_every_message, Delivery,
};
use crate::backchannel::{BackchannelProofKey, BackchannelReply};
use crate::commands::LinkReply;
use crate::counts::{lemma_owned_parts, lemma_stats_none, lemma_stats_step};
use crate::events::ResultView;
use crate::keyed::{has_key, lemma_key_index, value_of};
use crate::message::LxMessageView;
use crate::model::{
    active_among, establishing_among, idle_among, one_shot_among, reusable_among, ManagerState,
    OpenRequestView, SessionObservation, StartObservation,
};
use crate::session::SessionView;

verus! {

proof fn lemma_one_more(before: ManagerState, after: ManagerState, delivery: Delivery)
    requires
        after.deliveries() == before.deliveries().insert(delivery),
    ensures
        after.delivery_count() == before.delivery_count() + 1,
{
    deliveries_are_counted(before);
    deliveries_are_counted(after);
}

proof fn lemma_balance(before: ManagerState, after: ManagerState, results: Seq<ResultView>)
    requires
        before.deliveries() == after.deliveries().add(of_results(results).to_multiset()),
    ensures
        after.delivery_count() + results.len() == before.delivery_count(),
{
    deliveries_are_counted(before);
    deliveries_are_counted(after);
    of_results(results).to_multiset_ensures();
}

/// A message that a cached link takes is one more delivery.
pub proof fn attaching_adds_one_delivery(
    state: ManagerState,
    message: LxMessageView,
    dest_hash: [u8; 16],
    idle: u128,
    now: Instant,
)
    requires
        state.attachable(dest_hash, idle),
    ensures
        state.attached(message, dest_hash, now).delivery_count() == state.delivery_count() + 1,
{
    attaching_adds_the_message(state, message, dest_hash, idle, now);
    lemma_one_more(
        state,
        state.attached(message, dest_hash, now),
        (state.direct_links[dest_hash], message.hash),
    );
}

/// Dropping an unusable cache entry loses no delivery.
pub proof fn releasing_loses_no_delivery(state: ManagerState, dest_hash: [u8; 16], idle: u128)
    requires
        !state.attachable(dest_hash, idle),
    ensures
        state.released(dest_hash, idle).delivery_count() == state.delivery_count(),
{
    releasing_loses_no_message(state, dest_hash, idle);
    deliveries_are_counted(state);
    deliveries_are_counted(state.released(dest_hash, idle));
}

/// A message for which a new link is opened is one more delivery.
pub proof fn opening_adds_one_delivery(
    state: ManagerState,
    request: OpenRequestView,
    link_id: [u8; 16],
    result_tx: oneshot::Sender<LinkReply>,
    receiver: oneshot::Receiver<LinkReply>,
    now: Instant,
)
    requires
        !has_key(state.sessions, link_id),
    ensures
        state.opened(request, link_id, result_tx, receiver, now).delivery_count()
            == state.delivery_count() + 1,
{
    opening_adds_the_message(state, request, link_id, result_tx, receiver, now);
    lemma_one_more(
        state,
        state.opened(request, link_id, result_tx, receiver, now),
        (link_id, request.message.hash),
    );
}

/// A send over a backchannel is one more delivery.
pub proof fn backchannel_start_adds_one_delivery(
    state: ManagerState,
    message: LxMessageView,
    dest_hash: [u8; 16],
    link_id: [u8; 16],
    receiver: oneshot::Receiver<BackchannelReply>,
    now: Instant,
)
    ensures
        state.backchannel_started(message, dest_hash, link_id, receiver, now).delivery_count()
            == state.delivery_count() + 1,
{
}

/// A proof ends the one delivery that waited for it, and tells so with one result.
pub proof fn proof_ends_one_delivery(state: ManagerState, key: BackchannelProofKey)
    ensures
        match state.proof_result(key) {
            Some(_) => state.proved(key).delivery_count() + 1 == state.delivery_count(),
            None => value_of(state.waits, key) is None,
        },
{
    lemma_key_index(state.waits, key);
}

/// A closed inbound link ends the deliveries over it, each with one result, and no
/// others.
pub proof fn closed_link_ends_its_deliveries(
    state: ManagerState,
    link_id: [u8; 16],
    reason: Seq<char>,
)
    ensures
        ({
            let lost = state.fail_backchannel_link(link_id, reason);
            lost.state.delivery_count() + lost.results.len() == state.delivery_count()
        }),
{
    let lost = state.fail_backchannel_link(link_id, reason);
    closed_link_accounts_for_every_message(state, link_id, reason);
    lemma_balance(state, lost.state, lost.results);
}

/// Failing a message by its hash ends as many deliveries as it hands out results,
/// unless the message was delivered already and its link is idle since.
pub proof fn failing_by_hash_ends_what_it_tells(
    state: ManagerState,
    msg_hash: [u8; 32],
    reason: Seq<char>,
)
    requires
        state.session_holding(msg_hash) matches Some(i) ==> state.sessions[i].1.msg_hash == Some(
            msg_hash,
        ) ==> state.sessions[i].1.state !is Idle,
    ensures
        ({
            let failed = state.fail_by_hash(msg_hash, reason);
            failed.state.delivery_count() + failed.results.len() == state.delivery_count()
        }),
{
    let failed = state.fail_by_hash(msg_hash, reason);
    failing_by_hash_accounts_for_every_message(state, msg_hash, reason);
    lemma_balance(state, failed.state, failed.results);
}

/// Cancelling ends the same deliveries that failing ends; it only tells nothing of it,
/// closes the link of a session that goes, and keeps the backchannel.
pub proof fn cancelling_ends_what_failing_ends(
    state: ManagerState,
    msg_hash: [u8; 32],
    reason: Seq<char>,
)
    ensures
        ({
            let cancelled = state.cancel_by_hash(msg_hash);
            let failed = state.fail_by_hash(msg_hash, reason).state;
            &&& cancelled.sessions == failed.sessions
            &&& cancelled.starts == failed.starts
            &&& cancelled.waits == failed.waits
            &&& cancelled.direct_links == failed.direct_links
            &&& cancelled.events == state.events
            &&& cancelled.backchannel_links == state.backchannel_links
            &&& failed.commands == state.commands
        }),
{
}

/// A round loses no delivery and ends none twice: what was owned before is owned
/// afterwards or was handed out as a result. It only takes that no receipt names a
/// proof that is waited for already.
pub proof fn round_accounts_for_every_delivery(
    state: ManagerState,
    starts_seen: Seq<StartObservation>,
    ages: Seq<u128>,
    sessions_seen: Seq<SessionObservation>,
)
    requires
        state.coherent(),
        state.saw(starts_seen, ages, sessions_seen),
        receipts_fresh(
            ManagerState { starts: Seq::empty(), ..state },
            state.starts,
            starts_seen,
        ),
    ensures
        ({
            let round = state.tick(starts_seen, ages, sessions_seen);
            round.state.delivery_count() + round.results.len() == state.delivery_count()
        }),
{
    let round = state.tick(starts_seen, ages, sessions_seen);
    round_accounts_for_every_message(state, starts_seen, ages, sessions_seen);
    lemma_balance(state, round.state, round.results);
}

/// The aggregate numbers agree with each other: what waits and what is under way are
/// all deliveries, and a session is reusable or used once.
pub proof fn stats_add_up(state: ManagerState)
    ensures
        state.stats().queued_deliveries + state.stats().in_flight_deliveries
            == state.delivery_count(),
        state.stats().direct_sessions + state.stats().one_shot_sessions == state.stats().sessions,
        state.stats().establishing_direct_sessions + state.stats().idle_direct_sessions
            <= state.stats().direct_sessions,
        state.stats().active_direct_sessions <= state.stats().direct_sessions,
{
    lemma_owned_parts(state.sessions);
    lemma_session_kinds(state.sessions);
}

proof fn lemma_session_kinds(sessions: Seq<([u8; 16], SessionView)>)
    ensures
        reusable_among(sessions) + one_shot_among(sessions)
            == sessions.len(),
        establishing_among(sessions) + idle_among(sessions)
            <= reusable_among(sessions),
        active_among(sessions) <= reusable_among(sessions),
    decreases sessions.len(),
{
    if sessions.len() == 0 {
        lemma_stats_none(sessions);
    } else {
        let last = sessions.len() - 1;
        lemma_session_kinds(sessions.drop_last());
        assert(sessions.take(last) =~= sessions.drop_last());
        assert(sessions.take(last + 1) =~= sessions);
        lemma_stats_step(sessions, last);
    }
}

} // verus!
