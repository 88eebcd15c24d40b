//! A send over a backchannel is followed from its command to its proof, or to the end of
//! its time.

use std::time::Instant;
use tokio::sync::oneshot;
use vstd::prelude::*;

use super::ledger::{receipt_key, receipts_fresh};
use super::parts::{
    is_left_unanswered, is_left_waiting, lemma_round_extends, lemma_start_part, lemma_starts_left,
    lemma_told_on_the_way, lemma_wait_part, lemma_waits_left, newly_told, still_unanswered,
};
use super::rounds::session_round_leaves_backchannels;
use crate::backchannel::{
    BackchannelProofKey, BackchannelReply, BackchannelSendError, BackchannelSendReceipt,
    ProofWaitView, StartView,
};
use crate::channel::Poll;
use crate::events::{EventView, LxmfDeliveryEventKind, LxmfDeliveryEventMethod, ResultView};
use crate::keyed::{
    has_key, key_index, lemma_key_index, lemma_unique_with_entry, lemma_value_with_entry,
    lemma_value_without_key, unique_keys, value_of, with_entry,
};
use crate::message::LxMessageView;
use crate::model::{ManagerState, SessionObservation, StartObservation};
use crate::types::{DeliveryRepresentation, DeliveryState, LinkState, Progress};

verus! {

/// Why a send command ends with what was seen of it, if it ends: the runtime refused it,
/// will never answer it, or has not answered it within ten seconds.
pub open spec fn why_it_ends(seen: StartObservation) -> Option<Seq<char>> {
    match seen.reply {
        Poll::Ready(Ok(_)) => None,
        Poll::Ready(Err(BackchannelSendError::LinkNotFound)) => Some("link not found"@),
        Poll::Ready(Err(BackchannelSendError::LinkNotActive)) => Some("link is not active"@),
        Poll::Ready(Err(BackchannelSendError::NoSessionKeys)) => Some(
            "link session keys are unavailable"@,
        ),
        Poll::Ready(Err(BackchannelSendError::TransportUnavailable)) => Some(
            "transport channel is full or closed"@,
        ),
        Poll::Ready(Err(BackchannelSendError::ResourceStartFailed)) => Some(
            "resource transfer could not be started"@,
        ),
        Poll::Ready(Err(BackchannelSendError::Other(reason))) => Some(reason@),
        Poll::Empty => if seen.waited > 10_000_000_000 {
            Some("backchannel send command timeout"@)
        } else {
            None
        },
        Poll::Closed => Some("backchannel send command closed"@),
    }
}

/// The result that hands a message back that went over a backchannel.
pub open spec fn given_back(
    link_id: [u8; 16],
    dest_hash: [u8; 16],
    message: LxMessageView,
    reason: Seq<char>,
) -> ResultView {
    ResultView::Failed { link_id, msg_hash: message.hash, dest_hash, message, reason }
}

/// The event that tells that a message is handed back that went over a backchannel.
pub open spec fn told_back(
    link_id: [u8; 16],
    dest_hash: [u8; 16],
    message: LxMessageView,
    representation: DeliveryRepresentation,
    reason: Seq<char>,
) -> EventView {
    EventView {
        kind: LxmfDeliveryEventKind::Failed,
        method: LxmfDeliveryEventMethod::Direct,
        link_id,
        dest_hash,
        msg_hash: message.hash,
        attempts: message.delivery_attempts,
        progress: Some(message.progress),
        representation,
        link_state: LinkState::Closed,
        delivery_state: DeliveryState::Failed,
        queued_deliveries: 0,
        in_flight_deliveries: 0,
        reason: Some(reason),
    }
}

/// The event that tells of a receipt: that a packet awaits its proof, half way, or that
/// the transfer of a resource has begun, at a tenth.
pub open spec fn told_receipt(start: StartView, receipt: BackchannelSendReceipt) -> EventView {
    let packet = receipt is Packet;
    EventView {
        kind: if packet {
            LxmfDeliveryEventKind::AwaitingProof
        } else {
            LxmfDeliveryEventKind::TransferStarted
        },
        method: LxmfDeliveryEventMethod::Direct,
        link_id: start.link_id,
        dest_hash: start.dest_hash,
        msg_hash: start.message.hash,
        attempts: start.message.delivery_attempts,
        progress: Some(
            Progress {
                bits: if packet {
                    0x3FE0_0000_0000_0000
                } else {
                    0x3FB9_9999_9999_999A
                },
            },
        ),
        representation: if packet {
            DeliveryRepresentation::Packet
        } else {
            DeliveryRepresentation::Resource
        },
        link_state: LinkState::Active,
        delivery_state: DeliveryState::AwaitingProof,
        queued_deliveries: 0,
        in_flight_deliveries: 1,
        reason: None,
    }
}

proof fn lemma_answers_keep_unique(
    state: ManagerState,
    starts: Seq<StartView>,
    seen: Seq<StartObservation>,
)
    requires
        unique_keys(state.waits),
    ensures
        unique_keys(state.settle_starts(starts, seen).state.waits),
    decreases starts.len(),
{
    if starts.len() > 0 {
        lemma_answers_keep_unique(state, starts.drop_last(), seen.drop_last());
        let before = state.settle_starts(starts.drop_last(), seen.drop_last()).state;
        if let Poll::Ready(Ok(receipt)) = seen.last().reply {
            lemma_receipt_waits(before, starts.last(), receipt, seen.last().now);
            lemma_unique_with_entry(
                before.waits,
                receipt_key(receipt),
                wait_after(starts.last(), receipt, seen.last().now),
            );
        }
    }
}

/// The wait that a receipt begins.
pub open spec fn wait_after(
    start: StartView,
    receipt: BackchannelSendReceipt,
    now: Instant,
) -> ProofWaitView {
    ProofWaitView {
        message: start.message,
        dest_hash: start.dest_hash,
        link_id: start.link_id,
        representation: match receipt {
            BackchannelSendReceipt::Packet { .. } => DeliveryRepresentation::Packet,
            BackchannelSendReceipt::Resource { .. } => DeliveryRepresentation::Resource,
        },
        started_at: now,
    }
}

proof fn lemma_receipt_waits(
    state: ManagerState,
    start: StartView,
    receipt: BackchannelSendReceipt,
    now: Instant,
)
    ensures
        state.receipted(start, receipt, now).waits == with_entry(
            state.waits,
            receipt_key(receipt),
            wait_after(start, receipt, now),
        ),
{
}

/// Where no receipt names a proof that is waited for already, the answers leave the sends
/// that wait for their proofs alone, and add one for each receipt behind them: the send
/// that was answered, with its message, its destination and its link.
pub proof fn receipts_begin_to_wait(
    state: ManagerState,
    starts: Seq<StartView>,
    seen: Seq<StartObservation>,
    i: int,
)
    requires
        unique_keys(state.waits),
        seen.len() == starts.len(),
        receipts_fresh(state, starts, seen),
        0 <= i < starts.len(),
    ensures
        ({
            let after = state.settle_starts(starts, seen).state;
            &&& state.waits.len() <= after.waits.len()
            &&& forall|k: int|
                0 <= k < state.waits.len() ==> #[trigger] after.waits[k] == state.waits[k]
            &&& seen[i].reply matches Poll::Ready(Ok(receipt)) ==> value_of(
                after.waits,
                receipt_key(receipt),
            ) == Some(wait_after(starts[i], receipt, seen[i].now))
        }),
    decreases starts.len(),
{
    let (fewer, less) = (starts.drop_last(), seen.drop_last());
    let before = state.settle_starts(fewer, less).state;
    let last = starts.len() - 1;
    lemma_answers_keep_unique(state, fewer, less);
    if fewer.len() > 0 {
        let j = if i < last { i } else { 0 };
        receipts_begin_to_wait(state, fewer, less, j);
    }
    if let Poll::Ready(Ok(receipt)) = seen.last().reply {
        let key = receipt_key(receipt);
        let wait = wait_after(starts.last(), receipt, seen.last().now);
        lemma_receipt_waits(before, starts.last(), receipt, seen.last().now);
        lemma_key_index(before.waits, key);
        lemma_value_with_entry(before.waits, key, wait, key);
        if i < last {
            if let Poll::Ready(Ok(own)) = seen[i].reply {
                lemma_value_with_entry(before.waits, key, wait, receipt_key(own));
            }
        }
    }
}

/// A send that waits for its proof, be it of a packet or of a resource, for longer than
/// six minutes ends in the round: its message is handed back and that is told, no wait
/// for that proof is left, and the backchannel to its destination is gone.
pub proof fn overdue_send_is_handed_back(
    state: ManagerState,
    starts_seen: Seq<StartObservation>,
    ages: Seq<u128>,
    sessions_seen: Seq<SessionObservation>,
    i: int,
)
    requires
        unique_keys(state.waits),
        state.saw(starts_seen, ages, sessions_seen),
        0 <= i < state.answered(starts_seen).state.waits.len(),
        ages[i] > 360_000_000_000,
    ensures
        ({
            let (key, wait) = state.answered(starts_seen).state.waits[i];
            let round = state.tick(starts_seen, ages, sessions_seen);
            let reason = "backchannel delivery timeout"@;
            &&& !has_key(round.state.waits, key)
            &&& round.results.contains(
                given_back(wait.link_id, wait.dest_hash, wait.message, reason),
            )
            &&& newly_told(
                state,
                round.state,
                told_back(wait.link_id, wait.dest_hash, wait.message, wait.representation, reason),
            )
            &&& !round.state.backchannel_links.contains_key(wait.dest_hash)
        }),
{
    let reason = "backchannel delivery timeout"@;
    let answered = state.answered(starts_seen);
    let middle = answered.state;
    let (key, wait) = middle.waits[i];
    let cleared = ManagerState { waits: Seq::empty(), ..middle };
    let aged = middle.aged(ages);
    let first = state.tick_backchannels(starts_seen, ages);
    let round = state.tick(starts_seen, ages, sessions_seen);
    lemma_answers_keep_unique(
        ManagerState { starts: Seq::empty(), ..state },
        state.starts,
        starts_seen,
    );
    session_round_leaves_backchannels(first.state, sessions_seen);
    lemma_waits_left(cleared, middle.waits, ages);
    lemma_key_index(round.state.waits, key);
    if let Some(k) = key_index(round.state.waits, key) {
        assert(is_left_waiting(round.state.waits[k], middle.waits, ages));
        let j = choose|j: int|
            0 <= j < middle.waits.len() && round.state.waits[k] == middle.waits[j]
                && #[trigger] ages[j] <= 360_000_000_000;
        assert(middle.waits[j].0 == middle.waits[i].0);
        assert(i == j);
    }
    lemma_wait_part(cleared, middle.waits, ages, i);
    let result = given_back(wait.link_id, wait.dest_hash, wait.message, reason);
    let event = told_back(wait.link_id, wait.dest_hash, wait.message, wait.representation, reason);
    assert(cleared.age_wait(middle.waits[i], ages[i]).results[0] == result);
    assert(cleared.age_wait(middle.waits[i], ages[i]).state.events.last() == event);
    let n = choose|n: int| 0 <= n < aged.results.len() && aged.results[n] == result;
    assert(first.results[answered.results.len() + n] == result);
    assert(round.results[answered.results.len() + n] == result);
    lemma_round_extends(state, starts_seen, ages, sessions_seen);
    assert(newly_told(middle, first.state, event));
    lemma_told_on_the_way(state, middle, first.state, event);
    lemma_told_on_the_way(state, first.state, round.state, event);
}

/// A send that waits for its proof for six minutes at most goes on waiting, as it is; and
/// every send that waits after a round is one that did so before it and has time left.
pub proof fn send_in_time_goes_on_waiting(
    state: ManagerState,
    starts_seen: Seq<StartObservation>,
    ages: Seq<u128>,
    sessions_seen: Seq<SessionObservation>,
    i: int,
)
    requires
        unique_keys(state.waits),
        state.saw(starts_seen, ages, sessions_seen),
        0 <= i < state.answered(starts_seen).state.waits.len(),
        ages[i] <= 360_000_000_000,
    ensures
        ({
            let waits = state.answered(starts_seen).state.waits;
            let after = state.tick(starts_seen, ages, sessions_seen).state;
            &&& value_of(after.waits, waits[i].0) == Some(waits[i].1)
            &&& forall|k: int|
                0 <= k < after.waits.len() ==> is_left_waiting(
                    #[trigger] after.waits[k],
                    waits,
                    ages,
                )
        }),
{
    let middle = state.answered(starts_seen).state;
    let key = middle.waits[i].0;
    let cleared = ManagerState { waits: Seq::empty(), ..middle };
    let first = state.tick_backchannels(starts_seen, ages).state;
    let after = state.tick(starts_seen, ages, sessions_seen).state;
    lemma_answers_keep_unique(
        ManagerState { starts: Seq::empty(), ..state },
        state.starts,
        starts_seen,
    );
    session_round_leaves_backchannels(first, sessions_seen);
    lemma_waits_left(cleared, middle.waits, ages);
    assert(ages[i] <= 360_000_000_000);
    assert(after.waits.contains(middle.waits[i]));
    lemma_key_index(after.waits, key);
    let k = key_index(after.waits, key)->0;
    assert(is_left_waiting(after.waits[k], middle.waits, ages));
    let j = choose|j: int|
        0 <= j < middle.waits.len() && after.waits[k] == middle.waits[j] && #[trigger] ages[j]
            <= 360_000_000_000;
    assert(middle.waits[j].0 == middle.waits[i].0);
    assert(i == j);
}

/// A send command that the runtime refused, will never answer, or has not answered within
/// ten seconds ends in the round: its message is handed back with that reason and that is
/// told, and the backchannel to its destination is gone.
pub proof fn refused_command_is_handed_back(
    state: ManagerState,
    starts_seen: Seq<StartObservation>,
    ages: Seq<u128>,
    sessions_seen: Seq<SessionObservation>,
    i: int,
)
    requires
        state.saw(starts_seen, ages, sessions_seen),
        0 <= i < state.starts.len(),
        why_it_ends(starts_seen[i]) is Some,
    ensures
        ({
            let start = state.starts[i];
            let round = state.tick(starts_seen, ages, sessions_seen);
            let reason = why_it_ends(starts_seen[i])->0;
            &&& round.results.contains(
                given_back(start.link_id, start.dest_hash, start.message, reason),
            )
            &&& newly_told(
                state,
                round.state,
                told_back(
                    start.link_id,
                    start.dest_hash,
                    start.message,
                    DeliveryRepresentation::Unknown,
                    reason,
                ),
            )
            &&& !round.state.backchannel_links.contains_key(start.dest_hash)
        }),
{
    let reason = why_it_ends(starts_seen[i])->0;
    let start = state.starts[i];
    let cleared = ManagerState { starts: Seq::empty(), ..state };
    let answered = state.answered(starts_seen);
    let first = state.tick_backchannels(starts_seen, ages);
    let round = state.tick(starts_seen, ages, sessions_seen);
    lemma_start_part(cleared, state.starts, starts_seen, i);
    let result = given_back(start.link_id, start.dest_hash, start.message, reason);
    let event = told_back(
        start.link_id,
        start.dest_hash,
        start.message,
        DeliveryRepresentation::Unknown,
        reason,
    );
    let alone = cleared.settle_start(start, starts_seen[i]);
    assert(alone.results[0] == result);
    assert(alone.state.events.last() == event);
    let n = choose|n: int| 0 <= n < answered.results.len() && answered.results[n] == result;
    assert(round.results[n] == result);
    lemma_round_extends(state, starts_seen, ages, sessions_seen);
    assert(newly_told(state, answered.state, event));
    lemma_told_on_the_way(state, answered.state, first.state, event);
    lemma_told_on_the_way(state, first.state, round.state, event);
    lemma_backchannels_only_go(
        ManagerState { waits: Seq::empty(), ..answered.state },
        answered.state.waits,
        ages,
        start.dest_hash,
    );
    session_round_leaves_backchannels(first.state, sessions_seen);
}

proof fn lemma_backchannels_only_go(
    state: ManagerState,
    waits: Seq<(BackchannelProofKey, ProofWaitView)>,
    ages: Seq<u128>,
    dest_hash: [u8; 16],
)
    requires
        !state.backchannel_links.contains_key(dest_hash),
    ensures
        !state.age_waits(waits, ages).state.backchannel_links.contains_key(dest_hash),
    decreases waits.len(),
{
    if waits.len() > 0 {
        lemma_backchannels_only_go(state, waits.drop_last(), ages.drop_last(), dest_hash);
    }
}

/// A send command that was not answered and has time left goes on waiting for its answer,
/// as it is; and every command that waits after a round is one that did so before it, was
/// not answered and has time left.
pub proof fn unanswered_command_goes_on_waiting(
    state: ManagerState,
    starts_seen: Seq<StartObservation>,
    ages: Seq<u128>,
    sessions_seen: Seq<SessionObservation>,
)
    requires
        state.saw(starts_seen, ages, sessions_seen),
    ensures
        ({
            let after = state.tick(starts_seen, ages, sessions_seen).state;
            &&& forall|i: int|
                0 <= i < state.starts.len() && still_unanswered(
                    #[trigger] starts_seen[i],
                ) ==> after.starts.contains(state.starts[i])
            &&& forall|k: int|
                0 <= k < after.starts.len() ==> is_left_unanswered(
                    #[trigger] after.starts[k],
                    state.starts,
                    starts_seen,
                )
        }),
{
    let cleared = ManagerState { starts: Seq::empty(), ..state };
    lemma_starts_left(cleared, state.starts, starts_seen);
    let answered = state.answered(starts_seen).state;
    lemma_aging_leaves_starts(
        ManagerState { waits: Seq::empty(), ..answered },
        answered.waits,
        ages,
    );
    session_round_leaves_backchannels(
        state.tick_backchannels(starts_seen, ages).state,
        sessions_seen,
    );
}

proof fn lemma_aging_leaves_starts(
    state: ManagerState,
    waits: Seq<(BackchannelProofKey, ProofWaitView)>,
    ages: Seq<u128>,
)
    ensures
        state.age_waits(waits, ages).state.starts == state.starts,
    decreases waits.len(),
{
    if waits.len() > 0 {
        lemma_aging_leaves_starts(state, waits.drop_last(), ages.drop_last());
    }
}

/// A receipt is told of in the round.
pub proof fn receipt_is_told(
    state: ManagerState,
    starts_seen: Seq<StartObservation>,
    ages: Seq<u128>,
    sessions_seen: Seq<SessionObservation>,
    i: int,
)
    requires
        state.saw(starts_seen, ages, sessions_seen),
        0 <= i < state.starts.len(),
        starts_seen[i].reply matches Poll::Ready(Ok(_)),
    ensures
        ({
            let receipt = starts_seen[i].reply->Ready_0->Ok_0;
            newly_told(
                state,
                state.tick(starts_seen, ages, sessions_seen).state,
                told_receipt(state.starts[i], receipt),
            )
        }),
{
    let cleared = ManagerState { starts: Seq::empty(), ..state };
    let answered = state.answered(starts_seen).state;
    let first = state.tick_backchannels(starts_seen, ages).state;
    let round = state.tick(starts_seen, ages, sessions_seen).state;
    lemma_start_part(cleared, state.starts, starts_seen, i);
    let event = cleared.settle_start(state.starts[i], starts_seen[i]).state.events.last();
    lemma_round_extends(state, starts_seen, ages, sessions_seen);
    assert(newly_told(state, answered, event));
    lemma_told_on_the_way(state, answered, first, event);
    lemma_told_on_the_way(state, first, round, event);
}

/// A send that the runtime took waits for its answer with its message, its destination,
/// its link and the channel for the answer, behind all others; that is told; and nothing
/// else changes.
pub proof fn taken_command_waits_for_its_answer(
    state: ManagerState,
    message: LxMessageView,
    dest_hash: [u8; 16],
    link_id: [u8; 16],
    receiver: oneshot::Receiver<BackchannelReply>,
    now: Instant,
)
    ensures
        ({
            let after = state.backchannel_started(message, dest_hash, link_id, receiver, now);
            let start = after.starts.last();
            let event = after.events.last();
            &&& after.starts.drop_last() == state.starts
            &&& after.starts.len() == state.starts.len() + 1
            &&& start.message == message
            &&& start.dest_hash == dest_hash
            &&& start.link_id == link_id
            &&& start.receiver == receiver
            &&& start.requested_at == now
            &&& after.events.drop_last() == state.events
            &&& after.events.len() == state.events.len() + 1
            &&& event.kind is BackchannelLinkReused
            &&& event.method is Direct
            &&& event.link_id == link_id
            &&& event.dest_hash == dest_hash
            &&& event.msg_hash == message.hash
            &&& event.attempts == message.delivery_attempts
            &&& event.progress == Some(Progress { bits: 0x3FA9_9999_9999_999A })
            &&& event.representation is Unknown
            &&& event.link_state is Active
            &&& event.delivery_state is Transferring
            &&& event.queued_deliveries == state.starts.len()
            &&& event.in_flight_deliveries == state.waits.len() + 1
            &&& event.reason is None
            &&& after == (ManagerState { starts: after.starts, events: after.events, ..state })
        }),
{
    let after = state.backchannel_started(message, dest_hash, link_id, receiver, now);
    assert(after.starts.drop_last() =~= state.starts);
    assert(after.events.drop_last() =~= state.events);
}

/// A proof that a send waited for completes that send over its link, and tells so; no wait
/// for it is left, the other waits stay, and nothing else changes. A proof that none
/// waited for completes nothing.
pub proof fn proof_completes_what_waited_for_it(
    state: ManagerState,
    key: BackchannelProofKey,
    other: BackchannelProofKey,
)
    requires
        unique_keys(state.waits),
    ensures
        match value_of(state.waits, key) {
            Some(wait) => {
                let after = state.proved(key);
                let event = after.events.last();
                &&& state.proof_result(key) == Some(
                    ResultView::Complete { link_id: wait.link_id, msg_hash: wait.message.hash },
                )
                &&& !has_key(after.waits, key)
                &&& other != key ==> value_of(after.waits, other) == value_of(state.waits, other)
                &&& after.events.drop_last() == state.events
                &&& after.events.len() == state.events.len() + 1
                &&& event.kind is Delivered
                &&& event.method is Direct
                &&& event.link_id == wait.link_id
                &&& event.dest_hash == wait.dest_hash
                &&& event.msg_hash == wait.message.hash
                &&& event.attempts == wait.message.delivery_attempts
                &&& event.progress == Some(Progress { bits: 0x3FF0_0000_0000_0000 })
                &&& event.representation == wait.representation
                &&& event.link_state is Active
                &&& event.delivery_state is Complete
                &&& event.queued_deliveries == 0
                &&& event.in_flight_deliveries == 0
                &&& event.reason is None
                &&& after == (ManagerState { waits: after.waits, events: after.events, ..state })
            },
            None => state.proof_result(key) is None,
        },
{
    lemma_value_without_key(state.waits, key, key);
    lemma_value_without_key(state.waits, key, other);
    assert(state.proved(key).events.drop_last() =~= state.events);
}

} // verus!
