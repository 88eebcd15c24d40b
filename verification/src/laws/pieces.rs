//! The small steps of which deliveries are made, and the words that are used for them.

use std::time::Instant;
use tokio::sync::oneshot;
use vstd::prelude::*;

use crate::backchannel::{
    backchannel_event, BackchannelProofKey, BackchannelReply, BackchannelStartError,
    BackchannelStartFailure, BackchannelStartReport, ProofWaitView, SendOutcome, StartView,
};
use crate::events::{DeliveryResult, LxmfDeliveryEventKind};
use crate::keyed::{lemma_key_index, value_of};
use crate::manager::backchannel::{
    backchannel_offer, backchannel_refusal, offer_concluded, proof_handled,
};
use crate::message::LxMessageView;
use crate::model::{LinkTiming, ManagerState, SessionObservation, StartObservation};
use crate::session::SessionView;
use crate::text::{hex_digit, hex_text};
use crate::types::{DeliveryMethod, DeliveryRepresentation, DeliveryState, LinkState, Progress};

verus! {

/// A message that is to wait for a link waits behind all others, as it was given; nothing
/// else about the link changes. A link whose waiting messages are taken away has none.
pub proof fn waiting_message_is_kept_as_given(
    session: SessionView,
    message: LxMessageView,
    packed_override: Option<Seq<u8>>,
    auto_compress: bool,
)
    ensures
        ({
            let after = session.enqueue(message, packed_override, auto_compress);
            let last = after.queue.last();
            &&& after.queue.len() == session.queue.len() + 1
            &&& after.queue.drop_last() == session.queue
            &&& last.message == message
            &&& last.packed_override == packed_override
            &&& last.auto_compress == auto_compress
            &&& last.msg_hash == message.hash
            &&& after == (SessionView { queue: after.queue, ..session })
        }),
        session.drained().queue.len() == 0,
        session.drained() == (SessionView { queue: session.drained().queue, ..session }),
{
    let after = session.enqueue(message, packed_override, auto_compress);
    assert(after.queue.drop_last() =~= session.queue);
}

/// The message that has waited longest becomes the current one, as it was given, and the
/// others move up. It is still to be sent.
pub proof fn next_message_is_the_one_that_waited_longest(session: SessionView, now: Instant)
    requires
        session.queue.len() > 0,
    ensures
        ({
            let after = session.start_queued(now);
            &&& after.message == session.queue[0].message
            &&& after.packed_override == session.queue[0].packed_override
            &&& after.auto_compress == session.queue[0].auto_compress
            &&& after.msg_hash == session.queue[0].msg_hash
            &&& after.queue == session.queue.skip(1)
            &&& after.state is Identifying
            &&& after.started_at == now
            &&& after.failure_reason is None
            &&& after == (SessionView {
                message: after.message,
                packed_override: after.packed_override,
                auto_compress: after.auto_compress,
                msg_hash: after.msg_hash,
                queue: after.queue,
                state: after.state,
                started_at: after.started_at,
                failure_reason: after.failure_reason,
                ..session
            })
        }),
{
    assert(session.start_queued(now).queue =~= session.queue.skip(1));
}

/// An event about the delivery under way names its link, its destination and its message,
/// and says how it stands.
pub proof fn event_says_how_the_delivery_stands(
    session: SessionView,
    kind: LxmfDeliveryEventKind,
    link_id: [u8; 16],
    progress: Option<Progress>,
    reason: Option<Seq<char>>,
)
    ensures
        ({
            let event = session.event(kind, link_id, progress, reason);
            &&& event.kind == kind
            &&& event.method is Direct <==> session.reusable
            &&& event.method is PropagationDeposit <==> !session.reusable
            &&& event.link_id == link_id
            &&& event.dest_hash == session.dest_hash
            &&& event.msg_hash == session.msg_hash
            &&& event.attempts == session.message.delivery_attempts
            &&& event.progress == progress
            &&& event.representation == session.message.representation
            &&& event.link_state == session.link_state
            &&& event.delivery_state == session.state
            &&& event.queued_deliveries == session.queue.len()
            &&& event.in_flight_deliveries + if session.state is Idle {
                1int
            } else {
                0
            } == 1
            &&& event.reason == reason
        }),
{
}

/// An event about a send over a backchannel names its link, its destination and its
/// message, and says how it stands; one delivery is in flight while the message is being
/// transferred or its proof is awaited.
pub proof fn event_says_how_the_backchannel_send_stands(
    kind: LxmfDeliveryEventKind,
    message: LxMessageView,
    dest_hash: [u8; 16],
    link_id: [u8; 16],
    representation: DeliveryRepresentation,
    progress: Option<Progress>,
    reason: Option<Seq<char>>,
    link_state: LinkState,
    delivery_state: DeliveryState,
)
    ensures
        ({
            let event = backchannel_event(
                kind,
                message,
                dest_hash,
                link_id,
                representation,
                progress,
                reason,
                link_state,
                delivery_state,
            );
            &&& event.kind == kind
            &&& event.method is Direct
            &&& event.link_id == link_id
            &&& event.dest_hash == dest_hash
            &&& event.msg_hash == message.hash
            &&& event.attempts == message.delivery_attempts
            &&& event.progress == progress
            &&& event.representation == representation
            &&& event.link_state == link_state
            &&& event.delivery_state == delivery_state
            &&& event.queued_deliveries == 0
            &&& event.in_flight_deliveries <= 1
            &&& event.in_flight_deliveries == 1 <==> delivery_state is Transferring
                || delivery_state is AwaitingProof
            &&& event.reason == reason
        }),
{
}

/// A message is refused by a backchannel exactly if none is registered for its
/// destination, no way to the runtime is installed, or it has no wire form; the first of
/// these is the reason.
pub proof fn backchannel_refuses_for_a_reason(
    state: ManagerState,
    message: LxMessageView,
    dest_hash: [u8; 16],
)
    ensures
        ({
            let refusal = backchannel_refusal(state, message, dest_hash);
            let registered = state.backchannel_links.contains_key(dest_hash);
            let installed = state.backchannel_tx is Some;
            &&& !registered <==> refusal == Some(BackchannelStartError::NoBackchannel)
            &&& registered && !installed <==> refusal == Some(
                BackchannelStartError::SenderUnavailable,
            )
            &&& registered && installed && message.packed is Err <==> refusal == Some(
                BackchannelStartError::PackFailed,
            )
            &&& registered && installed && message.packed is Ok <==> refusal is None
        }),
{
}

/// An offer of a message over a backchannel holds the wire form of the message and the
/// link that is registered for its destination. Once the runtime took it, the report names
/// that link and the destination and counts the send; refused, it comes back as it is, and
/// the destination has no backchannel any more.
pub proof fn offer_holds_the_message(
    before: ManagerState,
    message: LxMessageView,
    dest_hash: [u8; 16],
    outcome: SendOutcome,
    result_tx: oneshot::Sender<BackchannelReply>,
    receiver: oneshot::Receiver<BackchannelReply>,
    now: Instant,
    after: ManagerState,
    started: Result<BackchannelStartReport, BackchannelStartFailure>,
)
    requires
        backchannel_refusal(before, message, dest_hash) is None,
        offer_concluded(
            before.with_offer(
                backchannel_offer(before, message, dest_hash, result_tx, outcome),
            ),
            message,
            dest_hash,
            before.backchannel_links[dest_hash],
            outcome,
            receiver,
            now,
            after,
            started,
        ),
    ensures
        after.offers.len() == before.offers.len() + 1,
        after.offers.drop_last() == before.offers,
        ({
            let offer = after.offers.last();
            &&& before.backchannel_tx == Some(offer.tx)
            &&& offer.link_id == before.backchannel_links[dest_hash]
            &&& message.packed matches Ok(packed) && offer.payload == packed
            &&& offer.auto_compress == message.auto_compress
            &&& offer.result_tx == result_tx
            &&& offer.outcome == outcome
        }),
        match started {
            Ok(report) => {
                &&& outcome is Sent
                &&& report.link_id == before.backchannel_links[dest_hash]
                &&& report.dest_hash == dest_hash
                &&& report.queued_deliveries == before.starts.len() + 1
                &&& report.in_flight_deliveries == before.waits.len() + 1
                &&& after == (ManagerState { offers: after.offers, ..before }).backchannel_started(
                    message,
                    dest_hash,
                    report.link_id,
                    receiver,
                    now,
                )
            },
            Err(failure) => {
                &&& outcome is Full <==> failure.error is CommandFull
                &&& outcome is Closed <==> failure.error is CommandClosed
                &&& outcome is Full || outcome is Closed
                &&& failure.message@ == message
                &&& after == (ManagerState {
                    offers: after.offers,
                    backchannel_links: before.backchannel_links.remove(dest_hash),
                    ..before
                })
            },
        },
{
    assert(after.offers.drop_last() =~= before.offers);
}

/// A proof that a send waited for is answered with the completion of that send over its
/// link; one that none waited for is answered with nothing and changes nothing.
pub proof fn proof_is_answered(
    before: ManagerState,
    key: BackchannelProofKey,
    after: ManagerState,
    result: Option<DeliveryResult>,
)
    requires
        proof_handled(before, key, after, result),
    ensures
        match value_of(before.waits, key) {
            Some(wait) => {
                &&& result matches Some(DeliveryResult::Complete { link_id, msg_hash })
                &&& link_id == wait.link_id
                &&& msg_hash == wait.message.hash
                &&& after.waits.len() + 1 == before.waits.len()
                &&& after.backchannel_links == before.backchannel_links
            },
            None => result is None && after == before,
        },
{
    lemma_key_index(before.waits, key);
}

/// Forgetting a backchannel forgets that of one destination, and changes nothing else.
pub proof fn one_backchannel_is_forgotten(
    state: ManagerState,
    dest_hash: [u8; 16],
    other: [u8; 16],
)
    ensures
        ({
            let after = state.without_backchannel(dest_hash);
            &&& !after.backchannel_links.contains_key(dest_hash)
            &&& other != dest_hash ==> {
                &&& after.backchannel_links.contains_key(other)
                    == state.backchannel_links.contains_key(other)
                &&& after.backchannel_links[other] == state.backchannel_links[other]
            }
            &&& after == (ManagerState { backchannel_links: after.backchannel_links, ..state })
        }),
{
}

/// A message is written as it was dictated, from one party to the other, and has no hash,
/// no signature and no wire form; it may be compressed, was never tried, and has not come
/// far. Signing gives it its hash, its signature and its wire form, and changes nothing
/// else.
pub proof fn signed_message_says_what_was_dictated(
    destination_hash: [u8; 16],
    source_hash: [u8; 16],
    title: Seq<char>,
    content: Seq<char>,
    method: DeliveryMethod,
    hash: [u8; 32],
    signature: [u8; 64],
    packed: Seq<u8>,
)
    ensures
        ({
            let draft = LxMessageView::draft(
                destination_hash,
                source_hash,
                title,
                content,
                method,
            );
            let signed = draft.signed(hash, signature, packed);
            &&& draft.hash is None
            &&& draft.signature is None
            &&& draft.packed is Err
            &&& signed.hash == Some(hash)
            &&& signed.signature == Some(signature)
            &&& signed.packed matches Ok(bytes) && bytes == packed
            &&& signed.destination_hash == destination_hash
            &&& signed.source_hash == source_hash
            &&& signed.title == title
            &&& signed.content == content
            &&& signed.method == method
            &&& signed.auto_compress
            &&& signed.delivery_attempts == 0
            &&& signed.progress == Progress { bits: 0 }
            &&& signed.representation is Unknown
            &&& draft == (LxMessageView {
                hash: None,
                signature: None,
                packed: draft.packed,
                ..signed
            })
        }),
{
}

/// A message that is already signed keeps everything else when it is signed anew.
pub proof fn signing_changes_only_the_signed_form(
    message: LxMessageView,
    hash: [u8; 32],
    signature: [u8; 64],
    packed: Seq<u8>,
)
    ensures
        ({
            let signed = message.signed(hash, signature, packed);
            &&& signed.hash == Some(hash)
            &&& signed.signature == Some(signature)
            &&& signed.packed matches Ok(bytes) && bytes == packed
            &&& signed == (LxMessageView {
                hash: signed.hash,
                signature: signed.signature,
                packed: signed.packed,
                ..message
            })
        }),
{
}

/// Raising a fraction to a floor gives the larger of the two; what is no number becomes the
/// floor.
pub proof fn raised_fraction_is_the_larger(progress: Progress, floor: Progress)
    requires
        floor.bits <= 0x7FF0_0000_0000_0000,
    ensures
        ({
            let raised = progress.spec_at_least(floor);
            &&& raised == progress || raised == floor
            &&& floor.bits <= raised.bits <= 0x7FF0_0000_0000_0000
            &&& progress.bits <= 0x7FF0_0000_0000_0000 ==> progress.bits <= raised.bits
            &&& progress.bits > 0x7FF0_0000_0000_0000 ==> raised == floor
        }),
{
}

/// The number that a lower-case hexadecimal digit stands for.
pub open spec fn digit_value(digit: char) -> int {
    if '0' <= digit <= '9' {
        digit as int - '0' as int
    } else if 'a' <= digit <= 'f' {
        digit as int - 'a' as int + 10
    } else {
        -1
    }
}

/// The hexadecimal text of bytes has two lower-case digits for each, the high one first,
/// from which the byte can be read.
pub proof fn hexadecimal_text_can_be_read(bytes: Seq<u8>, i: int)
    requires
        0 <= i < bytes.len(),
    ensures
        hex_text(bytes).len() == 2 * bytes.len(),
        ({
            let (high, low) = (
                digit_value(hex_text(bytes)[2 * i]),
                digit_value(hex_text(bytes)[2 * i + 1]),
            );
            &&& 0 <= high < 16
            &&& 0 <= low < 16
            &&& 16 * high + low == bytes[i]
        }),
{
    let byte = bytes[i] as int;
    assert((2 * i) % 2 == 0 && (2 * i) / 2 == i && (2 * i + 1) % 2 == 1 && (2 * i + 1) / 2 == i);
    lemma_digit(byte / 16);
    lemma_digit(byte % 16);
}

proof fn lemma_digit(n: int)
    requires
        0 <= n < 16,
    ensures
        digit_value(hex_digit(n)) == n,
{
    let digit = hex_digit(n);
    assert(digit as int == if n < 10 { 48 + n } else { 87 + n });
}

/// Each hop gives a link its time to be established, one at least, and a delivery has the
/// keepalive time on top.
pub proof fn each_hop_gives_its_time(timing: LinkTiming, hops: u8)
    ensures
        timing.establishment(0) == timing.establishment_per_hop,
        timing.establishment(1) == timing.establishment_per_hop,
        1 <= hops < 255 ==> timing.establishment((hops + 1) as u8) == timing.establishment(hops)
            + timing.establishment_per_hop,
        timing.delivery(hops) == timing.establishment(hops) + timing.keepalive,
{
    if 1 <= hops < 255 {
        let (per_hop, n) = (timing.establishment_per_hop as int, hops as int);
        assert(per_hop * (n + 1) == per_hop * n + per_hop) by (nonlinear_arith);
    }
}

/// Whether two states have the same surroundings: the same runtime, known destinations and
/// senders, and the same offers made.
pub open spec fn same_surroundings(before: ManagerState, after: ManagerState) -> bool {
    &&& after.runtime == before.runtime
    &&& after.known_identities == before.known_identities
    &&& after.backchannel_tx == before.backchannel_tx
    &&& after.inbound_packet_tx == before.inbound_packet_tx
    &&& after.offers == before.offers
}

/// A round leaves the surroundings alone.
pub proof fn round_leaves_the_surroundings(
    state: ManagerState,
    starts_seen: Seq<StartObservation>,
    ages: Seq<u128>,
    sessions_seen: Seq<SessionObservation>,
)
    ensures
        same_surroundings(state, state.tick(starts_seen, ages, sessions_seen).state),
{
    let answered = state.answered(starts_seen).state;
    lemma_starts_leave_surroundings(
        ManagerState { starts: Seq::empty(), ..state },
        state.starts,
        starts_seen,
    );
    lemma_waits_leave_surroundings(
        ManagerState { waits: Seq::empty(), ..answered },
        answered.waits,
        ages,
    );
    let middle = state.tick_backchannels(starts_seen, ages).state;
    lemma_sessions_leave_surroundings(
        ManagerState { sessions: Seq::empty(), ..middle },
        middle.sessions,
        sessions_seen,
    );
}

proof fn lemma_starts_leave_surroundings(
    state: ManagerState,
    starts: Seq<StartView>,
    seen: Seq<StartObservation>,
)
    ensures
        same_surroundings(state, state.settle_starts(starts, seen).state),
    decreases starts.len(),
{
    if starts.len() > 0 {
        lemma_starts_leave_surroundings(state, starts.drop_last(), seen.drop_last());
    }
}

proof fn lemma_waits_leave_surroundings(
    state: ManagerState,
    waits: Seq<(BackchannelProofKey, ProofWaitView)>,
    ages: Seq<u128>,
)
    ensures
        same_surroundings(state, state.age_waits(waits, ages).state),
    decreases waits.len(),
{
    if waits.len() > 0 {
        lemma_waits_leave_surroundings(state, waits.drop_last(), ages.drop_last());
    }
}

proof fn lemma_sessions_leave_surroundings(
    state: ManagerState,
    sessions: Seq<([u8; 16], SessionView)>,
    seen: Seq<SessionObservation>,
)
    ensures
        same_surroundings(state, state.settle_sessions(sessions, seen).state),
    decreases sessions.len(),
{
    if sessions.len() > 0 {
        lemma_sessions_leave_surroundings(state, sessions.drop_last(), seen.drop_last());
    }
}

} // verus!
