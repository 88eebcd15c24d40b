//! What is said of a value in the mathematical model is said of what the value holds.

use vstd::prelude::*;

use crate::backchannel::{start_views, PendingBackchannelDelivery, PendingBackchannelStart};
use crate::commands::{command_views, CommandView, LinkCommand, LinkReply};
use crate::events::{event_views, result_views, DeliveryResult, LxmfDeliveryEvent, ResultView};
use crate::keyed::KeyedList;
use crate::manager::{identity_views, KnownIdentity};
use crate::message::LxMessage;
use crate::payload_send::{SendStep, SendStepView};
use crate::queue::{queued_views, QueuedDelivery};
use crate::reports::{
    BackchannelLinkSnapshot, DirectLinkSnapshot, DirectLinkStartReport, LinkDeliveryStats,
    LinkOpenRequest, MessageDeliverySnapshot,
};
use crate::session::{answer_view, reply_view, PendingDelivery};

verus! {

/// A message is what it holds: its parties, its text, how it travels, the hash and the
/// signature it has, its wire form or why there is none, and how far it has come.
pub proof fn message_is_what_it_holds(message: LxMessage)
    ensures
        message@.destination_hash == message.destination_hash,
        message@.source_hash == message.source_hash,
        message@.title == message.title@,
        message@.content == message.content@,
        message@.method == message.method,
        message@.hash == message.hash,
        message@.signature == message.signature,
        match message.packed {
            Ok(bytes) => message@.packed matches Ok(packed) && packed == bytes@,
            Err(error) => message@.packed matches Err(told) && told.detail == error.detail@
                && told.debug == error.debug@,
        },
        message@.auto_compress == message.auto_compress,
        message@.delivery_attempts == message.delivery_attempts,
        message@.progress == message.progress,
        message@.representation == message.representation,
{
}

/// A result is what it holds.
pub proof fn result_is_what_it_holds(result: DeliveryResult)
    ensures
        match (result, result@) {
            (
                DeliveryResult::Complete { link_id, msg_hash },
                ResultView::Complete { link_id: link, msg_hash: hash },
            ) => link == link_id && hash == msg_hash,
            (
                DeliveryResult::Rejected { link_id, msg_hash, dest_hash, message, reason },
                ResultView::Rejected {
                    link_id: link,
                    msg_hash: hash,
                    dest_hash: dest,
                    message: held,
                    reason: why,
                },
            ) => link == link_id && hash == msg_hash && dest == dest_hash && held == message@ && why
                == reason@,
            (
                DeliveryResult::Failed { link_id, msg_hash, dest_hash, message, reason },
                ResultView::Failed {
                    link_id: link,
                    msg_hash: hash,
                    dest_hash: dest,
                    message: held,
                    reason: why,
                },
            ) => link == link_id && hash == msg_hash && dest == dest_hash && held == message@ && why
                == reason@,
            _ => false,
        },
{
}

/// An event is what it holds.
pub proof fn event_is_what_it_holds(event: LxmfDeliveryEvent)
    ensures
        event@.kind == event.kind,
        event@.method == event.method,
        event@.link_id == event.link_id,
        event@.dest_hash == event.dest_hash,
        event@.msg_hash == event.msg_hash,
        event@.attempts == event.attempts,
        event@.progress == event.progress,
        event@.representation == event.representation,
        event@.link_state == event.link_state,
        event@.delivery_state == event.delivery_state,
        event@.queued_deliveries == event.queued_deliveries,
        event@.in_flight_deliveries == event.in_flight_deliveries,
        match event.reason {
            Some(reason) => event@.reason == Some(reason@),
            None => event@.reason is None,
        },
{
}

/// A command to the runtime is what it holds.
pub proof fn command_is_what_it_holds(command: LinkCommand)
    ensures
        match (command, command@) {
            (
                LinkCommand::SendPayload {
                    link_id,
                    payload,
                    auto_compress,
                    deadline,
                    identify_before_send,
                    result_tx,
                },
                CommandView::SendPayload {
                    link_id: link,
                    payload: bytes,
                    auto_compress: compress,
                    deadline: limit,
                    identify_before_send: identify,
                    result_tx: tx,
                },
            ) => {
                &&& link == link_id
                &&& bytes == payload@
                &&& compress == auto_compress
                &&& limit == deadline
                &&& identify == identify_before_send
                &&& tx == result_tx
            },
            (LinkCommand::Close { link_id }, CommandView::Close { link_id: link }) => link
                == link_id,
            (
                LinkCommand::DeregisterDestination { link_id },
                CommandView::DeregisterDestination { link_id: link },
            ) => link == link_id,
            _ => false,
        },
{
}

/// Reports, requests and snapshots are what they hold.
pub proof fn reports_are_what_they_hold(
    report: DirectLinkStartReport,
    request: LinkOpenRequest,
    link: DirectLinkSnapshot,
    message: MessageDeliverySnapshot,
    backchannel: BackchannelLinkSnapshot,
)
    ensures
        report@.link_id == report.link_id,
        report@.dest_hash == report.dest_hash,
        report@.kind == report.kind,
        report@.link_state == report.link_state,
        report@.delivery_state == report.delivery_state,
        report@.queued_deliveries == report.queued_deliveries,
        report@.in_flight_deliveries == report.in_flight_deliveries,
        request@.message == request.message@,
        request@.dest_hash == request.dest_hash,
        request@.hops == request.hops,
        request@.public_key == request.public_key,
        request@.payload == request.payload@,
        request@.auto_compress == request.auto_compress,
        request@.reusable == request.reusable,
        request@.establishment_timeout == request.establishment_timeout,
        request@.timeout == request.timeout,
        request@.inbound_packet_tx == request.inbound_packet_tx,
        link@.link_id == link.link_id,
        link@.dest_hash == link.dest_hash,
        link@.link_state == link.link_state,
        link@.delivery_state == link.delivery_state,
        link@.idle_expired == link.idle_expired,
        link@.queued_deliveries == link.queued_deliveries,
        link@.in_flight_deliveries == link.in_flight_deliveries,
        message@.link_id == message.link_id,
        message@.dest_hash == message.dest_hash,
        message@.link_state == message.link_state,
        message@.delivery_state == message.delivery_state,
        message@.representation == message.representation,
        message@.progress == message.progress,
        message@.queued == message.queued,
        message@.queued_deliveries == message.queued_deliveries,
        message@.in_flight_deliveries == message.in_flight_deliveries,
        backchannel@.link_id == backchannel.link_id,
        backchannel@.dest_hash == backchannel.dest_hash,
        backchannel@.queued_deliveries == backchannel.queued_deliveries,
        backchannel@.in_flight_deliveries == backchannel.in_flight_deliveries,
{
}

/// The aggregate numbers are what they hold.
pub proof fn numbers_are_what_they_hold(stats: LinkDeliveryStats)
    ensures
        stats@.sessions == stats.sessions,
        stats@.direct_sessions == stats.direct_sessions,
        stats@.one_shot_sessions == stats.one_shot_sessions,
        stats@.backchannel_sessions == stats.backchannel_sessions,
        stats@.establishing_direct_sessions == stats.establishing_direct_sessions,
        stats@.active_direct_sessions == stats.active_direct_sessions,
        stats@.idle_direct_sessions == stats.idle_direct_sessions,
        stats@.queued_deliveries == stats.queued_deliveries,
        stats@.in_flight_deliveries == stats.in_flight_deliveries,
        stats@.pending_backchannel_starts == stats.pending_backchannel_starts,
        stats@.pending_backchannel_deliveries == stats.pending_backchannel_deliveries,
{
}

/// What is pending is what it holds: a delivery over a link, a message that waits for a
/// link, a send command without an answer, and a send that waits for its proof.
pub proof fn pending_is_what_it_holds(
    delivery: PendingDelivery,
    queued: QueuedDelivery,
    start: PendingBackchannelStart,
    wait: PendingBackchannelDelivery,
)
    ensures
        delivery@.message == delivery.message@,
        delivery@.dest_hash == delivery.dest_hash,
        match delivery.packed_override {
            Some(bytes) => delivery@.packed_override == Some(bytes@),
            None => delivery@.packed_override is None,
        },
        delivery@.auto_compress == delivery.auto_compress,
        delivery@.link_id == delivery.link.spec_id(),
        delivery@.link_state == delivery.link.spec_state(),
        delivery@.state == delivery.state,
        delivery@.started_at == delivery.started_at,
        delivery@.runtime_result == delivery.runtime_result,
        delivery@.establishment_timeout == delivery.establishment_timeout,
        delivery@.timeout == delivery.timeout,
        delivery@.msg_hash == delivery.msg_hash,
        match delivery.failure_reason {
            Some(reason) => delivery@.failure_reason == Some(reason@),
            None => delivery@.failure_reason is None,
        },
        delivery@.reusable == delivery.reusable,
        delivery@.backchannel_identified == delivery.backchannel_identified,
        delivery@.queue == delivery.queue@,
        queued@.message == queued.message@,
        match queued.packed_override {
            Some(bytes) => queued@.packed_override == Some(bytes@),
            None => queued@.packed_override is None,
        },
        queued@.auto_compress == queued.auto_compress,
        queued@.msg_hash == queued.msg_hash,
        start@.receiver == start.receiver,
        start@.message == start.message@,
        start@.dest_hash == start.dest_hash,
        start@.link_id == start.link_id,
        start@.requested_at == start.requested_at,
        wait@.message == wait.message@,
        wait@.dest_hash == wait.dest_hash,
        wait@.link_id == wait.link_id,
        wait@.representation == wait.representation,
        wait@.started_at == wait.started_at,
{
}

/// A list is what its elements are, one by one and in their order.
pub proof fn lists_are_what_they_hold(
    results: Seq<DeliveryResult>,
    events: Seq<LxmfDeliveryEvent>,
    commands: Seq<LinkCommand>,
    queue: Seq<QueuedDelivery>,
    starts: Seq<PendingBackchannelStart>,
    known: Seq<KnownIdentity>,
    sessions: KeyedList<[u8; 16], PendingDelivery>,
    i: int,
)
    ensures
        result_views(results).len() == results.len(),
        event_views(events).len() == events.len(),
        command_views(commands).len() == commands.len(),
        queued_views(queue).len() == queue.len(),
        start_views(starts).len() == starts.len(),
        identity_views(known).len() == known.len(),
        sessions@.len() == sessions.entries@.len(),
        0 <= i < results.len() ==> result_views(results)[i] == results[i]@,
        0 <= i < events.len() ==> event_views(events)[i] == events[i]@,
        0 <= i < commands.len() ==> command_views(commands)[i] == commands[i]@,
        0 <= i < queue.len() ==> queued_views(queue)[i] == queue[i]@,
        0 <= i < starts.len() ==> start_views(starts)[i] == starts[i]@,
        0 <= i < known.len() ==> identity_views(known)[i] == (known[i].name@, known[i].public_key),
        0 <= i < sessions@.len() ==> sessions@[i] == (
            sessions.entries@[i].0,
            sessions.entries@[i].1@,
        ),
{
}

/// An answer of the runtime is what it holds, be it read off a channel, handed on or given
/// by a send that has come to its end.
pub proof fn answer_is_what_it_holds(reply: LinkReply, step: SendStep)
    ensures
        match reply {
            Ok(receipt) => reply_view(reply) matches Ok(told) && told == receipt,
            Err(reason) => reply_view(reply) matches Err(told) && told == reason@,
        },
        answer_view(Some(reply)) == Some(reply_view(reply)),
        answer_view(None) is None,
        match (step, step@) {
            (SendStep::Continue(stage), SendStepView::Continue(told)) => told == stage,
            (SendStep::Answer(Ok(receipt)), SendStepView::Answer(Ok(told))) => told == receipt,
            (SendStep::Answer(Err(reason)), SendStepView::Answer(Err(told))) => told == reason@,
            _ => false,
        },
{
}

} // verus!
