//! What becomes of one session in one step, whatever state it is in.

use std::time::Instant;
use tokio::sync::oneshot;
use vstd::prelude::*;

use super::ending::told_current;
use super::exact::given_back_waiting;
use super::link_rounds::{form_of, told_waiting};
use crate::backchannel::{
    BackchannelReply, BackchannelStartFailure, BackchannelStartReport, SendOutcome,
};
use crate::commands::{CommandView, LinkPayloadSendReceipt, LinkReply};
use crate::events::{EventView, ResultView};
use crate::manager::backchannel::offer_concluded;
use crate::message::{LxMessageView, MessageErrorView};
use crate::model::ManagerState;
use crate::session::SessionView;
use crate::types::{LinkState, Progress};

verus! {

/// What goes over a link for a message is its override, with the compression that came with
/// it, or else its wire form, with its own compression. It goes over its own link, has the
/// time of the link's deliveries, and its answer is awaited from then on; its progress is a
/// twentieth at least. Without anything to send the reason says why.
pub proof fn sending_takes_what_the_message_has(
    session: SessionView,
    result_tx: oneshot::Sender<LinkReply>,
    receiver: oneshot::Receiver<LinkReply>,
    now: Instant,
)
    ensures
        session.payload() == match session.packed_override {
            Some(bytes) => Ok::<Seq<u8>, MessageErrorView>(bytes),
            None => session.message.packed,
        },
        session.payload() matches Ok(bytes) ==> session.launch_command(result_tx) == (
        CommandView::SendPayload {
            link_id: session.link_id,
            payload: bytes,
            auto_compress: match session.packed_override {
                Some(_) => session.auto_compress,
                None => session.message.auto_compress,
            },
            deadline: session.timeout,
            identify_before_send: false,
            result_tx,
        }),
        session.payload() matches Err(error) ==> session.launch_failure()
            == "failed to pack LXMF payload: "@ + error.debug,
        ({
            let after = session.launched(receiver, now);
            let (progress, raised) = (
                session.message.progress.bits,
                after.message.progress.bits,
            );
            &&& after.state is Transferring
            &&& after.runtime_result == Some(receiver)
            &&& after.started_at == now
            &&& raised == if 0x3FA9_9999_9999_999A < progress <= 0x7FF0_0000_0000_0000 {
                progress
            } else {
                0x3FA9_9999_9999_999A
            }
            &&& after == (SessionView {
                state: after.state,
                runtime_result: after.runtime_result,
                started_at: after.started_at,
                message: LxMessageView { progress: Progress { bits: raised }, ..session.message },
                ..session
            })
        }),
{
}

/// An answer with a receipt completes the current message, in the form that the receipt
/// says, and that is told; the link is kept, idle from now on, exactly if it is reusable.
pub proof fn receipt_completes_the_current_message(
    session: SessionView,
    link_id: [u8; 16],
    receipt: LinkPayloadSendReceipt,
    elapsed: u128,
    now: Instant,
)
    ensures
        ({
            let settled = session.settle(link_id, Some(Ok(receipt)), elapsed, now);
            let after = settled.session;
            let event = settled.events[0];
            &&& settled.results == seq![
                ResultView::Complete { link_id, msg_hash: session.msg_hash },
            ]
            &&& settled.keep == session.reusable
            &&& settled.events.len() == 1
            &&& event.kind is Delivered
            &&& event.method is Direct <==> session.reusable
            &&& event.link_id == link_id
            &&& event.dest_hash == session.dest_hash
            &&& event.msg_hash == session.msg_hash
            &&& event.attempts == session.message.delivery_attempts
            &&& event.progress == Some(Progress { bits: 0x3FF0_0000_0000_0000 })
            &&& event.representation == form_of(receipt)
            &&& event.link_state is Active
            &&& event.delivery_state is Complete
            &&& event.queued_deliveries == session.queue.len()
            &&& event.in_flight_deliveries == 1
            &&& event.reason is None
            &&& session.reusable ==> after.state is Idle && after.started_at == now
            &&& !session.reusable ==> after.state is Complete && after.started_at
                == session.started_at
            &&& after == (SessionView {
                state: after.state,
                started_at: after.started_at,
                link_state: LinkState::Active,
                runtime_result: None,
                backchannel_identified: true,
                message: LxMessageView {
                    progress: Progress { bits: 0x3FF0_0000_0000_0000 },
                    representation: form_of(receipt),
                    ..session.message
                },
                ..session
            })
        }),
{
}

/// Whether a session has failed with a reason: its current message and, behind it, every
/// message that waited are handed back as themselves and told of, and the link is not kept.
pub open spec fn hands_all_back(
    session: SessionView,
    link_id: [u8; 16],
    reason: Seq<char>,
    events: Seq<EventView>,
    results: Seq<ResultView>,
    k: int,
) -> bool {
    &&& events.len() == 1 + session.queue.len()
    &&& results.len() == 1 + session.queue.len()
    &&& events[0] == told_current(link_id, session, reason)
    &&& results[0] == (ResultView::Failed {
        link_id,
        msg_hash: session.msg_hash,
        dest_hash: session.dest_hash,
        message: session.message,
        reason,
    })
    &&& 0 <= k < session.queue.len() ==> {
        &&& events[k + 1] == told_waiting(link_id, session.dest_hash, session.queue[k], reason)
        &&& results[k + 1] == given_back_waiting(
            link_id,
            session.dest_hash,
            session.queue[k],
            reason,
        )
    }
}

/// An answer with an error fails the current message and every one behind it with that
/// error, over a link that counts as closed then. Without an answer the same happens once
/// the time of a delivery that is under way is up, and nothing at all before that.
pub proof fn failure_hands_all_back(
    session: SessionView,
    link_id: [u8; 16],
    reason: Seq<char>,
    elapsed: u128,
    now: Instant,
    k: int,
)
    ensures
        hands_all_back(
            session,
            link_id,
            reason,
            session.failed_events(link_id, reason),
            session.failed_results(link_id, reason),
            k,
        ),
        ({
            let settled = session.settle(link_id, Some(Err(reason)), elapsed, now);
            let closed = SessionView {
                link_state: LinkState::Closed,
                runtime_result: None,
                ..session
            };
            &&& !settled.keep
            &&& settled.session == (SessionView { queue: Seq::empty(), ..closed })
            &&& hands_all_back(closed, link_id, reason, settled.events, settled.results, k)
        }),
        ({
            let settled = session.settle(link_id, None, elapsed, now);
            if session.state !is Idle && elapsed > session.timeout {
                &&& !settled.keep
                &&& settled.session == (SessionView { queue: Seq::empty(), ..session })
                &&& hands_all_back(
                    session,
                    link_id,
                    "delivery timeout"@,
                    settled.events,
                    settled.results,
                    k,
                )
            } else {
                &&& settled.keep
                &&& settled.session == session
                &&& settled.events.len() == 0
                &&& settled.results.len() == 0
            }
        }),
{
}

/// A session whose round is concluded is kept behind all others, or its link is closed and,
/// if it was the reusable one to its destination, forgotten as such; what it tells and hands
/// out is told and handed out, and nothing else changes.
pub proof fn concluded_session_is_kept_or_closed(
    state: ManagerState,
    link_id: [u8; 16],
    session: SessionView,
    answer: Option<Result<LinkPayloadSendReceipt, Seq<char>>>,
    elapsed: u128,
    now: Instant,
)
    ensures
        ({
            let settled = session.settle(link_id, answer, elapsed, now);
            let round = state.conclude_session(link_id, session, answer, elapsed, now);
            &&& round.results == settled.results
            &&& round.state.events == state.events + settled.events
            &&& settled.keep ==> round.state == (ManagerState {
                sessions: state.sessions.push((link_id, settled.session)),
                events: round.state.events,
                ..state
            })
            &&& !settled.keep ==> round.state == (ManagerState {
                direct_links: if session.reusable {
                    state.direct_links.remove(session.dest_hash)
                } else {
                    state.direct_links
                },
                commands: state.commands.push(CommandView::Close { link_id }),
                events: round.state.events,
                ..state
            })
        }),
{
}

/// An offer over any link that the runtime took starts a send over that link and is
/// reported with that link, the destination and the numbers of sends; one that it did not
/// take comes back as it is with the reason, and costs the destination its backchannel.
pub proof fn offer_is_concluded_by_its_outcome(
    before: ManagerState,
    message: LxMessageView,
    dest_hash: [u8; 16],
    link_id: [u8; 16],
    outcome: SendOutcome,
    receiver: oneshot::Receiver<BackchannelReply>,
    now: Instant,
    after: ManagerState,
    started: Result<BackchannelStartReport, BackchannelStartFailure>,
)
    requires
        offer_concluded(
            before,
            message,
            dest_hash,
            link_id,
            outcome,
            receiver,
            now,
            after,
            started,
        ),
    ensures
        match started {
            Ok(report) => {
                &&& outcome is Sent
                &&& report.link_id == link_id
                &&& report.dest_hash == dest_hash
                &&& report.queued_deliveries == before.starts.len() + 1
                &&& report.in_flight_deliveries == before.waits.len() + 1
                &&& after == before.backchannel_started(message, dest_hash, link_id, receiver, now)
            },
            Err(failure) => {
                &&& outcome is Full <==> failure.error is CommandFull
                &&& outcome is Closed <==> failure.error is CommandClosed
                &&& outcome !is Sent
                &&& failure.message@ == message
                &&& after == (ManagerState {
                    backchannel_links: before.backchannel_links.remove(dest_hash),
                    ..before
                })
            },
        },
{
}

} // verus!
