//! What a link is opened for, what is noted of it, and how long it has.

use std::time::Instant;
use tokio::sync::oneshot;
use vstd::prelude::*;

use super::coherence::opening_keeps_coherence;
use super::link_rounds::{failed_delivery_is_handed_back, quiet_link_is_left_alone};
use super::sending::newly_commanded;
use crate::commands::{CommandView, LinkReply};
use crate::events::ResultView;
use crate::failure::{LinkDeliveryStartError, LinkDeliveryStartFailure};
use crate::keyed::{
    has_key, keyed_by, lemma_key_index_is, lemma_value_with_entry, unique_keys, value_of,
};
use crate::manager::start::direct_start_is;
use crate::message::{LxMessageView, MessageErrorView};
use crate::model::{
    LinkTiming, ManagerState, OpenRequestView, SessionObservation, StartObservation,
};
use crate::reports::{DirectStart, LinkOpenRequest};
use crate::seqs::lemma_first_where;
use crate::text::hex_text;
use crate::types::Progress;

verus! {

/// The number of hops that count: a destination is one hop away at least.
pub open spec fn counted(hops: u8) -> int {
    if hops == 0 {
        1
    } else {
        hops as int
    }
}

/// Whether a key is the one that is known for a destination: the first that is listed
/// under the destination's hash in hexadecimal.
pub open spec fn is_key_of(state: ManagerState, dest_hash: [u8; 16], public_key: [u8; 64]) -> bool {
    exists|i: int|
        {
            &&& 0 <= i < state.known_identities.len()
            &&& #[trigger] state.known_identities[i] == (hex_text(dest_hash@), public_key)
            &&& forall|j: int|
                0 <= j < i ==> (#[trigger] state.known_identities[j]).0 != hex_text(dest_hash@)
        }
}

/// Whether no key is known for a destination.
pub open spec fn has_no_key(state: ManagerState, dest_hash: [u8; 16]) -> bool {
    forall|i: int|
        0 <= i < state.known_identities.len() ==> (#[trigger] state.known_identities[i]).0
            != hex_text(dest_hash@)
}

/// The key of a destination is the first one that is listed under its hash.
pub proof fn known_key_is_the_first_listed(state: ManagerState, dest_hash: [u8; 16])
    ensures
        match state.known_key(dest_hash) {
            Some(public_key) => is_key_of(state, dest_hash, public_key),
            None => has_no_key(state, dest_hash),
        },
{
    lemma_first_where(
        state.known_identities,
        keyed_by::<Seq<char>, [u8; 64]>(hex_text(dest_hash@)),
    );
}

/// A request to deposit a packed payload goes to the destination that the caller named,
/// over the hops that the caller named, with the key known for that destination, and with
/// the message, the payload and the compression as they were given. The link is used once
/// and hands no payloads on. There is such a request exactly if there is a runtime and the
/// key is known.
pub proof fn packed_request_is_what_the_caller_named(
    state: ManagerState,
    message: LxMessageView,
    dest_hash: [u8; 16],
    hops: u8,
    payload: Seq<u8>,
    auto_compress: bool,
    open: LinkOpenRequest,
)
    ensures
        state.packed_request(message, dest_hash, hops, payload, auto_compress) is None
            <==> state.runtime is None || has_no_key(state, dest_hash),
        state.packed_request(message, dest_hash, hops, payload, auto_compress) == Some(
            open@,
        ) ==> {
            &&& open.dest_hash == dest_hash
            &&& open.hops == hops
            &&& is_key_of(state, dest_hash, open.public_key)
            &&& open.payload@ == payload
            &&& open.auto_compress == auto_compress
            &&& open.message@ == message
            &&& !open.reusable
            &&& open.establishment_timeout == state.runtime->0.establishment_per_hop * counted(hops)
            &&& open.timeout == state.runtime->0.establishment_per_hop * counted(hops)
                + state.runtime->0.keepalive
            &&& open.inbound_packet_tx is None
        },
{
    known_key_is_the_first_listed(state, dest_hash);
    if let Some(public_key) = state.known_key(dest_hash) {
        let i = choose|i: int|
            {
                &&& 0 <= i < state.known_identities.len()
                &&& #[trigger] state.known_identities[i] == (hex_text(dest_hash@), public_key)
                &&& forall|j: int|
                    0 <= j < i ==> (#[trigger] state.known_identities[j]).0 != hex_text(
                        dest_hash@,
                    )
            };
        assert(state.known_identities[i].0 == hex_text(dest_hash@));
    }
    if let Some(timing) = state.runtime {
        lemma_time_fits(timing, hops);
    }
}

proof fn lemma_time_fits(timing: LinkTiming, hops: u8)
    ensures
        0 <= timing.establishment_per_hop * counted(hops),
        timing.establishment_per_hop * counted(hops) + timing.keepalive <= u128::MAX,
{
    let (per_hop, n) = (timing.establishment_per_hop as int, counted(hops));
    assert(0 <= per_hop * n <= u64::MAX * 255) by (nonlinear_arith)
        requires
            0 <= per_hop <= u64::MAX,
            1 <= n <= 255,
    ;
}

/// A Direct start that asks for a link asks for one to the destination that the caller
/// named, over the hops that the caller named, with the key known for that destination,
/// for the message as it is: its wire form goes over the link, compressed if the message
/// allows it, the link is kept for further messages, and what arrives over it is handed
/// on. A message for which none can be opened comes back as it is, with the reason.
pub proof fn direct_request_is_what_the_caller_named(
    before: ManagerState,
    message: LxMessageView,
    dest_hash: [u8; 16],
    hops: u8,
    idle: u128,
    now: Instant,
    after: ManagerState,
    started: Result<DirectStart, LinkDeliveryStartFailure>,
)
    requires
        direct_start_is(before, message, dest_hash, hops, idle, now, after, started),
    ensures
        match started {
            Ok(DirectStart::OpenLink(open)) => {
                &&& !before.attachable(dest_hash, idle)
                &&& after == before.released(dest_hash, idle)
                &&& open.dest_hash == dest_hash
                &&& open.hops == hops
                &&& is_key_of(before, dest_hash, open.public_key)
                &&& message.packed == Ok::<Seq<u8>, MessageErrorView>(
                    open.payload@,
                )
                &&& open.auto_compress == message.auto_compress
                &&& open.message@ == message
                &&& open.reusable
                &&& open.establishment_timeout == before.runtime->0.establishment_per_hop
                    * counted(hops)
                &&& open.timeout == before.runtime->0.establishment_per_hop * counted(hops)
                    + before.runtime->0.keepalive
                &&& open.inbound_packet_tx == before.inbound_packet_tx
            },
            Ok(DirectStart::Attached(report)) => {
                &&& before.attachable(dest_hash, idle)
                &&& after == before.attached(message, dest_hash, now)
                &&& report@ == before.attached_report(message, dest_hash, now)
                &&& before.direct_links.contains_key(dest_hash)
                &&& report.link_id == before.direct_links[dest_hash]
                &&& report.dest_hash == dest_hash
            },
            Err(failure) => {
                &&& !before.attachable(dest_hash, idle)
                &&& after == before.released(dest_hash, idle)
                &&& failure.message@ == message
                &&& before.runtime is None || has_no_key(before, dest_hash) || message.packed is Err
                &&& failure.error == if before.runtime is None {
                    LinkDeliveryStartError::RuntimeUnavailable
                } else {
                    LinkDeliveryStartError::RemoteIdentityUnavailable
                }
            },
        },
{
    known_key_is_the_first_listed(before, dest_hash);
    if let Some(timing) = before.runtime {
        lemma_time_fits(timing, hops);
    }
}

/// Whether a request could have come from a manager with these clock rates for a
/// destination that many hops away.
pub open spec fn has_the_time_of(request: OpenRequestView, timing: LinkTiming, hops: u8) -> bool {
    request.timeout == timing.establishment_per_hop * counted(hops) + timing.keepalive
}

/// A link that was opened is noted with what was asked for: its session is the message
/// on its way to the destination, nothing waits behind it, and it has the full times of
/// the request. The payload is to be sent over the link within that time, by a sender that
/// identifies itself first if the link is used once. A reusable link is the one to its
/// destination from then on, and is told of. Nothing else changes.
pub proof fn opened_link_is_noted_as_asked(
    state: ManagerState,
    request: OpenRequestView,
    link_id: [u8; 16],
    result_tx: oneshot::Sender<LinkReply>,
    receiver: oneshot::Receiver<LinkReply>,
    now: Instant,
    other: [u8; 16],
)
    requires
        unique_keys(state.sessions),
    ensures
        ({
            let after = state.opened(request, link_id, result_tx, receiver, now);
            let event = after.events.last();
            &&& value_of(after.sessions, link_id) matches Some(session)
            &&& session.message == request.message
            &&& session.msg_hash == request.message.hash
            &&& session.dest_hash == request.dest_hash
            &&& session.link_id == link_id
            &&& session.packed_override is None
            &&& request.reusable ==> session.auto_compress
            &&& !request.reusable ==> session.auto_compress == request.auto_compress
            &&& session.link_state is Pending
            &&& session.state is Establishing
            &&& session.started_at == now
            &&& session.runtime_result == Some(receiver)
            &&& session.establishment_timeout == request.establishment_timeout
            &&& session.timeout == request.timeout
            &&& session.failure_reason is None
            &&& session.reusable == request.reusable
            &&& session.backchannel_identified == !request.reusable
            &&& session.queue.len() == 0
            &&& other != link_id ==> value_of(after.sessions, other) == value_of(
                state.sessions,
                other,
            )
            &&& after.commands.drop_last() == state.commands
            &&& after.commands.len() == state.commands.len() + 1
            &&& after.commands.last() == (CommandView::SendPayload {
                link_id,
                payload: request.payload,
                auto_compress: request.auto_compress,
                deadline: request.timeout,
                identify_before_send: !request.reusable,
                result_tx,
            })
            &&& request.reusable ==> {
                &&& after.direct_links == state.direct_links.insert(request.dest_hash, link_id)
                &&& after.events.drop_last() == state.events
                &&& after.events.len() == state.events.len() + 1
                &&& event.kind is LinkEstablishing
                &&& event.method is Direct
                &&& event.link_id == link_id
                &&& event.dest_hash == request.dest_hash
                &&& event.msg_hash == request.message.hash
                &&& event.attempts == request.message.delivery_attempts
                &&& event.progress == Some(Progress { bits: 0x3F9E_B851_EB85_1EB8 })
                &&& event.representation is Unknown
                &&& event.link_state is Pending
                &&& event.delivery_state is Establishing
                &&& event.queued_deliveries == 0
                &&& event.in_flight_deliveries == 1
                &&& event.reason is None
            }
            &&& !request.reusable ==> {
                &&& after.direct_links == state.direct_links
                &&& after.events == state.events
            }
            &&& after == (ManagerState {
                sessions: after.sessions,
                commands: after.commands,
                direct_links: after.direct_links,
                events: after.events,
                ..state
            })
        }),
        ({
            let report = request.report(link_id);
            &&& report.link_id == link_id
            &&& report.dest_hash == request.dest_hash
            &&& report.kind is NewDirect
            &&& report.link_state is Pending
            &&& report.delivery_state is Establishing
            &&& report.queued_deliveries == 0
            &&& report.in_flight_deliveries == 1
        }),
{
    let after = state.opened(request, link_id, result_tx, receiver, now);
    let session = request.session(link_id, receiver, now);
    lemma_value_with_entry(state.sessions, link_id, session, link_id);
    lemma_value_with_entry(state.sessions, link_id, session, other);
    assert(after.commands.drop_last() =~= state.commands);
    assert(request.reusable ==> after.events.drop_last() =~= state.events);
}

/// A delivery over a link that was opened for it has the time of the whole way, the hops
/// and the keepalive: as long as that is not up and no answer came, a round leaves it
/// pending; once it is up, the message is handed back and the link is given up.
pub proof fn delivery_over_a_new_link_has_its_full_time(
    state: ManagerState,
    request: OpenRequestView,
    timing: LinkTiming,
    hops: u8,
    link_id: [u8; 16],
    result_tx: oneshot::Sender<LinkReply>,
    receiver: oneshot::Receiver<LinkReply>,
    now: Instant,
    starts_seen: Seq<StartObservation>,
    ages: Seq<u128>,
    sessions_seen: Seq<SessionObservation>,
    i: int,
)
    requires
        state.coherent(),
        !has_key(state.sessions, link_id),
        request.reusable ==> !state.direct_links.contains_key(request.dest_hash),
        has_the_time_of(request, timing, hops),
        state.opened(request, link_id, result_tx, receiver, now).saw(
            starts_seen,
            ages,
            sessions_seen,
        ),
        0 <= i < sessions_seen.len(),
        state.opened(request, link_id, result_tx, receiver, now).sessions[i].0 == link_id,
        sessions_seen[i].found is Empty,
    ensures
        ({
            let opened = state.opened(request, link_id, result_tx, receiver, now);
            let round = opened.tick(starts_seen, ages, sessions_seen);
            let limit = timing.establishment_per_hop * counted(hops) + timing.keepalive;
            if sessions_seen[i].elapsed <= limit {
                &&& value_of(round.state.sessions, link_id) matches Some(session)
                &&& session.state !is Idle
                &&& session.message == request.message
                &&& session.msg_hash == request.message.hash
                &&& session.runtime_result == Some(receiver)
            } else {
                &&& !has_key(round.state.sessions, link_id)
                &&& round.results.contains(
                    ResultView::Failed {
                        link_id,
                        msg_hash: request.message.hash,
                        dest_hash: request.dest_hash,
                        message: request.message,
                        reason: "delivery timeout"@,
                    },
                )
                &&& newly_commanded(opened, round.state, CommandView::Close { link_id })
            }
        }),
{
    let opened = state.opened(request, link_id, result_tx, receiver, now);
    opening_keeps_coherence(state, request, link_id, result_tx, receiver, now);
    opened_link_is_noted_as_asked(state, request, link_id, result_tx, receiver, now, link_id);
    lemma_key_index_is(opened.sessions, i);
    if sessions_seen[i].elapsed <= opened.sessions[i].1.timeout {
        quiet_link_is_left_alone(opened, starts_seen, ages, sessions_seen, i);
    } else {
        failed_delivery_is_handed_back(opened, starts_seen, ages, sessions_seen, i, 0);
    }
}

} // verus!
