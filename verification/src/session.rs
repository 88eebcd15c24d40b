//! One outbound link and the deliveries that it carries.

use std::collections::VecDeque;
use std::time::Instant;
use tokio::sync::oneshot;
use vstd::prelude::*;

use crate::channel::Poll;
use crate::commands::{CommandView, LinkCommand, LinkPayloadSendReceipt, LinkReply};
use crate::events::{
    event_views, lemma_event_views_push, lemma_result_views_push, result_views, DeliveryResult,
    EventView, LxmfDeliveryEvent, LxmfDeliveryEventKind, LxmfDeliveryEventMethod, ResultView,
};
use crate::message::{LxMessage, LxMessageView, MessageErrorView};
use crate::queue::{queued_views, DirectDeliveryQueue, QueuedDelivery, QueuedView};
use crate::types::{
    bytes_of, copy_bytes, text_of, DeliveryRepresentation, DeliveryState, LinkState, Progress,
    PROGRESS_DONE, PROGRESS_LINK_READY,
};

verus! {

/// Reusable Direct links stay open for ten minutes of data inactivity before they
/// are torn down. In nanoseconds.
pub const LINK_MAX_INACTIVITY: u128 = 600_000_000_000;

/// The link under a delivery: its identifier and the state it is known to be in.
pub struct OutboundDeliveryLink {
    id: [u8; 16],
    state: LinkState,
}

impl OutboundDeliveryLink {
    /// The identifier, as a mathematical value.
    pub closed spec fn spec_id(self) -> [u8; 16] {
        self.id
    }

    /// The state, as a mathematical value.
    pub closed spec fn spec_state(self) -> LinkState {
        self.state
    }

    /// A link that was requested and is not established yet.
    pub fn requested(id: [u8; 16]) -> (link: Self)
        ensures
            link.spec_id() == id,
            link.spec_state() is Pending,
    {
        OutboundDeliveryLink { id, state: LinkState::Pending }
    }

    /// The identifier of the link.
    pub fn id(&self) -> (id: [u8; 16])
        ensures
            id == self.spec_id(),
    {
        self.id
    }

    /// The state of the link.
    pub fn state(&self) -> (state: LinkState)
        ensures
            state == self.spec_state(),
    {
        self.state
    }

    /// Notes a new state of the link.
    pub fn set_state(&mut self, new_state: LinkState)
        ensures
            final(self).spec_id() == old(self).spec_id(),
            final(self).spec_state() == new_state,
    {
        self.state = new_state;
    }

    /// Whether the link carries data.
    pub fn is_active(&self) -> (active: bool)
        ensures
            active == (self.spec_state() is Active),
    {
        self.state == LinkState::Active
    }
}

/// An in-progress link-based delivery, and the messages that wait behind it.
pub struct PendingDelivery {
    pub message: LxMessage,
    pub dest_hash: [u8; 16],
    pub packed_override: Option<Vec<u8>>,
    pub auto_compress: bool,
    pub link: OutboundDeliveryLink,
    pub state: DeliveryState,
    pub started_at: Instant,
    pub runtime_result: Option<oneshot::Receiver<LinkReply>>,
    /// Link establishment timeout in nanoseconds. It excludes keepalive time: an
    /// initiator that is never answered fails on the establishment clock, not on
    /// the active-link inactivity clock. The runtime is handed the timeout with the
    /// request to open the link; here it is only noted.
    pub establishment_timeout: u128,
    /// Full delivery timeout in nanoseconds, after the link has moved beyond
    /// establishment.
    pub timeout: u128,
    pub msg_hash: Option<[u8; 32]>,
    pub failure_reason: Option<String>,
    /// Keep successful Direct links open for additional messages. Propagation
    /// deposits use their link once.
    pub reusable: bool,
    /// Whether the initiator has identified itself to the other side, which makes the
    /// link usable as a peer backchannel: from the start over a link that is used once,
    /// after the first successful delivery over a reusable one.
    pub backchannel_identified: bool,
    pub queue: DirectDeliveryQueue,
}

/// The mathematical content of a [`PendingDelivery`].
#[verifier::ext_equal]
pub struct SessionView {
    pub message: LxMessageView,
    pub dest_hash: [u8; 16],
    pub packed_override: Option<Seq<u8>>,
    pub auto_compress: bool,
    pub link_id: [u8; 16],
    pub link_state: LinkState,
    pub state: DeliveryState,
    pub started_at: Instant,
    pub runtime_result: Option<oneshot::Receiver<LinkReply>>,
    pub establishment_timeout: u128,
    pub timeout: u128,
    pub msg_hash: Option<[u8; 32]>,
    pub failure_reason: Option<Seq<char>>,
    pub reusable: bool,
    pub backchannel_identified: bool,
    pub queue: Seq<QueuedView>,
}

impl View for PendingDelivery {
    type V = SessionView;

    open spec fn view(&self) -> SessionView {
        SessionView {
            message: self.message@,
            dest_hash: self.dest_hash,
            packed_override: bytes_of(self.packed_override),
            auto_compress: self.auto_compress,
            link_id: self.link.spec_id(),
            link_state: self.link.spec_state(),
            state: self.state,
            started_at: self.started_at,
            runtime_result: self.runtime_result,
            establishment_timeout: self.establishment_timeout,
            timeout: self.timeout,
            msg_hash: self.msg_hash,
            failure_reason: text_of(self.failure_reason),
            reusable: self.reusable,
            backchannel_identified: self.backchannel_identified,
            queue: self.queue@,
        }
    }
}

/// The answer of the runtime as a mathematical value.
pub open spec fn reply_view(reply: LinkReply) -> Result<LinkPayloadSendReceipt, Seq<char>> {
    match reply {
        Ok(receipt) => Ok(receipt),
        Err(reason) => Err(reason@),
    }
}

/// What a look at the answer channel of a session amounts to: no answer yet, an
/// answer, or the certainty that none will come.
pub open spec fn answer_in(found: Poll<LinkReply>) -> Option<Result<LinkPayloadSendReceipt, Seq<char>>> {
    match found {
        Poll::Ready(reply) => Some(reply_view(reply)),
        Poll::Empty => None,
        Poll::Closed => Some(Err("Link session task stopped"@)),
    }
}

/// The content of an answer that may have come.
pub open spec fn answer_view(answer: Option<LinkReply>) -> Option<
    Result<LinkPayloadSendReceipt, Seq<char>>,
> {
    match answer {
        Some(reply) => Some(reply_view(reply)),
        None => None,
    }
}

/// Reads a look at the answer channel of a session.
pub fn read_answer(found: Poll<LinkReply>) -> (answer: Option<LinkReply>)
    ensures
        answer_view(answer) == answer_in(found),
{
    match found {
        Poll::Ready(reply) => Some(reply),
        Poll::Empty => None,
        Poll::Closed => Some(Err("Link session task stopped".to_owned())),
    }
}

/// What became of a session in one round: the session itself, what it told, and
/// whether it goes on.
pub struct SettledSession {
    pub session: SessionView,
    pub events: Seq<EventView>,
    pub results: Seq<ResultView>,
    pub keep: bool,
}

impl SessionView {
    /// How many deliveries are under way on the link: one, unless it is idle.
    pub open spec fn in_flight(self) -> nat {
        if self.state is Idle {
            0
        } else {
            1
        }
    }

    /// How many deliveries the session owns, the one under way and those waiting.
    pub open spec fn owned(self) -> nat {
        self.in_flight() + self.queue.len()
    }

    /// The session with a message waiting behind all others.
    pub open spec fn enqueue(
        self,
        message: LxMessageView,
        packed_override: Option<Seq<u8>>,
        auto_compress: bool,
    ) -> Self {
        SessionView {
            queue: self.queue.push(QueuedView::of(message, packed_override, auto_compress)),
            ..self
        }
    }

    /// The session with the message that waited longest as the current one.
    pub open spec fn start_queued(self, now: Instant) -> Self {
        let next = self.queue[0];
        SessionView {
            message: next.message,
            packed_override: next.packed_override,
            auto_compress: next.auto_compress,
            started_at: now,
            msg_hash: next.msg_hash,
            failure_reason: None,
            state: DeliveryState::Identifying,
            queue: self.queue.drop_first(),
            ..self
        }
    }

    /// What goes over the link for the current message: its override, or its wire
    /// form.
    pub open spec fn payload(self) -> Result<Seq<u8>, MessageErrorView> {
        match self.packed_override {
            Some(bytes) => Ok(bytes),
            None => self.message.packed,
        }
    }

    /// Whether the payload of the current message may be compressed.
    pub open spec fn payload_compressible(self) -> bool {
        if self.packed_override is Some {
            self.auto_compress
        } else {
            self.message.auto_compress
        }
    }

    /// The session whose current message is being sent.
    pub open spec fn launched(self, receiver: oneshot::Receiver<LinkReply>, now: Instant) -> Self {
        SessionView {
            runtime_result: Some(receiver),
            state: DeliveryState::Transferring,
            started_at: now,
            message: LxMessageView {
                progress: self.message.progress.spec_at_least(
                    Progress { bits: PROGRESS_LINK_READY },
                ),
                ..self.message
            },
            ..self
        }
    }

    /// The command that sends the current message, where it has a payload.
    pub open spec fn launch_command(self, result_tx: oneshot::Sender<LinkReply>) -> CommandView {
        CommandView::SendPayload {
            link_id: self.link_id,
            payload: self.payload()->Ok_0,
            auto_compress: self.payload_compressible(),
            deadline: self.timeout,
            identify_before_send: false,
            result_tx,
        }
    }

    /// What is noted where the current message has no payload.
    pub open spec fn launch_failure(self) -> Seq<char> {
        "failed to pack LXMF payload: "@ + self.payload()->Err_0.debug
    }

    /// The event that tells of the current delivery.
    pub open spec fn event(
        self,
        kind: LxmfDeliveryEventKind,
        link_id: [u8; 16],
        progress: Option<Progress>,
        reason: Option<Seq<char>>,
    ) -> EventView {
        EventView {
            kind,
            method: if self.reusable {
                LxmfDeliveryEventMethod::Direct
            } else {
                LxmfDeliveryEventMethod::PropagationDeposit
            },
            link_id,
            dest_hash: self.dest_hash,
            msg_hash: self.msg_hash,
            attempts: self.message.delivery_attempts,
            progress,
            representation: self.message.representation,
            link_state: self.link_state,
            delivery_state: self.state,
            queued_deliveries: self.queue.len(),
            in_flight_deliveries: self.in_flight(),
            reason,
        }
    }

    /// The events that tell that the current delivery failed, and with it every
    /// one that waited, in the order of the queue.
    pub open spec fn failed_events(self, link_id: [u8; 16], reason: Seq<char>) -> Seq<EventView> {
        seq![
            self.event(
                LxmfDeliveryEventKind::Failed,
                link_id,
                Some(self.message.progress),
                Some(reason),
            ),
        ] + self.queue.map_values(
            |queued: QueuedView| queued.failed_event(link_id, self.dest_hash, reason),
        )
    }

    /// The results that hand the messages of a failed session back.
    pub open spec fn failed_results(self, link_id: [u8; 16], reason: Seq<char>) -> Seq<ResultView> {
        seq![
            ResultView::Failed {
                link_id,
                msg_hash: self.msg_hash,
                dest_hash: self.dest_hash,
                message: self.message,
                reason,
            },
        ] + self.queue.map_values(
            |queued: QueuedView| queued.failed_result(link_id, self.dest_hash, reason),
        )
    }

    /// The session with nothing waiting.
    pub open spec fn drained(self) -> Self {
        SessionView { queue: Seq::empty(), ..self }
    }

    /// Whether a link that has been idle for so long is given up.
    pub open spec fn idle_expired(self, idle: u128) -> bool {
        &&& self.state is Idle
        &&& self.queue.len() == 0
        &&& self.link_state is Active
        &&& idle > LINK_MAX_INACTIVITY
    }

    /// The session whose current message was delivered. The sender identifies itself
    /// after the first delivery over a reusable link, and before that over any other.
    pub open spec fn delivered(self, receipt: LinkPayloadSendReceipt) -> Self {
        SessionView {
            link_state: LinkState::Active,
            message: LxMessageView {
                representation: match receipt {
                    LinkPayloadSendReceipt::Packet => DeliveryRepresentation::Packet,
                    LinkPayloadSendReceipt::Resource => DeliveryRepresentation::Resource,
                },
                progress: Progress { bits: PROGRESS_DONE },
                ..self.message
            },
            state: DeliveryState::Complete,
            runtime_result: None,
            backchannel_identified: true,
            ..self
        }
    }

    /// One round of a session, given the answer that came, if one came, how long
    /// the current delivery has been under way, and what the clock says.
    pub open spec fn settle(
        self,
        link_id: [u8; 16],
        answer: Option<Result<LinkPayloadSendReceipt, Seq<char>>>,
        elapsed: u128,
        now: Instant,
    ) -> SettledSession {
        match answer {
            Some(Ok(receipt)) => {
                let done = self.delivered(receipt);
                SettledSession {
                    session: if self.reusable {
                        SessionView { state: DeliveryState::Idle, started_at: now, ..done }
                    } else {
                        done
                    },
                    events: seq![
                        done.event(
                            LxmfDeliveryEventKind::Delivered,
                            link_id,
                            Some(Progress { bits: PROGRESS_DONE }),
                            None,
                        ),
                    ],
                    results: seq![ResultView::Complete { link_id, msg_hash: self.msg_hash }],
                    keep: self.reusable,
                }
            },
            Some(Err(reason)) => {
                let closed = SessionView {
                    link_state: LinkState::Closed,
                    runtime_result: None,
                    ..self
                };
                SettledSession {
                    session: closed.drained(),
                    events: closed.failed_events(link_id, reason),
                    results: closed.failed_results(link_id, reason),
                    keep: false,
                }
            },
            None => if self.state !is Idle && elapsed > self.timeout {
                SettledSession {
                    session: self.drained(),
                    events: self.failed_events(link_id, "delivery timeout"@),
                    results: self.failed_results(link_id, "delivery timeout"@),
                    keep: false,
                }
            } else {
                SettledSession {
                    session: self,
                    events: Seq::empty(),
                    results: Seq::empty(),
                    keep: true,
                }
            },
        }
    }
}

impl QueuedView {
    /// The event that tells that a waiting delivery failed.
    pub open spec fn failed_event(
        self,
        link_id: [u8; 16],
        dest_hash: [u8; 16],
        reason: Seq<char>,
    ) -> EventView {
        EventView {
            kind: LxmfDeliveryEventKind::Failed,
            method: LxmfDeliveryEventMethod::Direct,
            link_id,
            dest_hash,
            msg_hash: self.msg_hash,
            attempts: self.message.delivery_attempts,
            progress: Some(self.message.progress),
            representation: self.message.representation,
            link_state: LinkState::Closed,
            delivery_state: DeliveryState::Failed,
            queued_deliveries: 0,
            in_flight_deliveries: 0,
            reason: Some(reason),
        }
    }

    /// The result that hands the message of a failed waiting delivery back.
    pub open spec fn failed_result(
        self,
        link_id: [u8; 16],
        dest_hash: [u8; 16],
        reason: Seq<char>,
    ) -> ResultView {
        ResultView::Failed {
            link_id,
            msg_hash: self.msg_hash,
            dest_hash,
            message: self.message,
            reason,
        }
    }
}

/// Makes the event that tells of the current delivery of a session.
pub fn delivery_event(
    kind: LxmfDeliveryEventKind,
    link_id: [u8; 16],
    delivery: &PendingDelivery,
    progress: Option<Progress>,
    reason: Option<String>,
) -> (event: LxmfDeliveryEvent)
    ensures
        event@ == delivery@.event(kind, link_id, progress, text_of(reason)),
{
    LxmfDeliveryEvent {
        kind,
        method: if delivery.reusable {
            LxmfDeliveryEventMethod::Direct
        } else {
            LxmfDeliveryEventMethod::PropagationDeposit
        },
        link_id,
        dest_hash: delivery.dest_hash,
        msg_hash: delivery.msg_hash,
        attempts: delivery.message.delivery_attempts,
        progress,
        representation: delivery.message.representation,
        link_state: delivery.link.state(),
        delivery_state: delivery.state,
        queued_deliveries: delivery.queue.len(),
        in_flight_deliveries: delivery.in_flight_count(),
        reason,
    }
}

/// Makes the event that tells that a waiting delivery failed.
pub fn queued_delivery_event(
    link_id: [u8; 16],
    dest_hash: [u8; 16],
    queued: &QueuedDelivery,
    reason: &str,
) -> (event: LxmfDeliveryEvent)
    ensures
        event@ == queued@.failed_event(link_id, dest_hash, reason@),
{
    LxmfDeliveryEvent {
        kind: LxmfDeliveryEventKind::Failed,
        method: LxmfDeliveryEventMethod::Direct,
        link_id,
        dest_hash,
        msg_hash: queued.msg_hash,
        attempts: queued.message.delivery_attempts,
        progress: Some(queued.message.progress),
        representation: queued.message.representation,
        link_state: LinkState::Closed,
        delivery_state: DeliveryState::Failed,
        queued_deliveries: 0,
        in_flight_deliveries: 0,
        reason: Some(reason.to_owned()),
    }
}

impl PendingDelivery {
    /// How many deliveries are under way on the link.
    pub fn in_flight_count(&self) -> (n: usize)
        ensures
            n == self@.in_flight(),
    {
        if self.state == DeliveryState::Idle {
            0
        } else {
            1
        }
    }

    /// How many deliveries the session owns.
    pub fn active_delivery_count(&self) -> (n: usize)
        requires
            self@.owned() <= usize::MAX,
        ensures
            n == self@.owned(),
    {
        self.in_flight_count() + self.queue.len()
    }

    /// Lets a message wait behind all others.
    pub fn queue_delivery(
        &mut self,
        message: LxMessage,
        packed_override: Option<Vec<u8>>,
        auto_compress: bool,
    )
        ensures
            final(self)@ == old(self)@.enqueue(
                message@,
                bytes_of(packed_override),
                auto_compress,
            ),
    {
        self.queue.push(QueuedDelivery::new(message, packed_override, auto_compress));
    }

    /// Makes the message that waited longest the current one. Says whether there was
    /// one.
    pub fn start_queued_delivery(&mut self, now: Instant) -> (started: bool)
        ensures
            started == (old(self)@.queue.len() > 0),
            final(self)@ == if started {
                old(self)@.start_queued(now)
            } else {
                old(self)@
            },
    {
        match self.queue.pop() {
            None => false,
            Some(next) => {
                self.message = next.message;
                self.packed_override = next.packed_override;
                self.auto_compress = next.auto_compress;
                self.started_at = now;
                self.msg_hash = next.msg_hash;
                self.failure_reason = None;
                self.state = DeliveryState::Identifying;
                true
            },
        }
    }

    /// Begins to send the current message. Yields the command to the runtime, or,
    /// where the message has no payload, leaves the session as it was and yields the
    /// reason.
    pub fn launch_runtime_current_delivery(
        &mut self,
        result_tx: oneshot::Sender<LinkReply>,
        receiver: oneshot::Receiver<LinkReply>,
        now: Instant,
    ) -> (launched: Result<LinkCommand, String>)
        ensures
            match launched {
                Ok(command) => {
                    &&& old(self)@.payload() is Ok
                    &&& command@ == old(self)@.launch_command(result_tx)
                    &&& final(self)@ == old(self)@.launched(receiver, now)
                },
                Err(reason) => {
                    &&& old(self)@.payload() is Err
                    &&& reason@ == old(self)@.launch_failure()
                    &&& final(self)@ == old(self)@
                },
            },
    {
        let payload = match &self.packed_override {
            Some(bytes) => copy_bytes(bytes),
            None => match self.message.pack() {
                Ok(bytes) => bytes,
                Err(error) => {
                    let mut reason = "failed to pack LXMF payload: ".to_owned();
                    reason.append(error.debug.as_str());
                    return Err(reason);
                },
            },
        };
        let auto_compress = if self.packed_override.is_some() {
            self.auto_compress
        } else {
            self.message.auto_compress
        };
        let command = LinkCommand::SendPayload {
            link_id: self.link.id(),
            payload,
            auto_compress,
            deadline: self.timeout,
            identify_before_send: false,
            result_tx,
        };
        self.runtime_result = Some(receiver);
        self.state = DeliveryState::Transferring;
        self.started_at = now;
        self.message.progress = self.message.progress.at_least(
            Progress { bits: PROGRESS_LINK_READY },
        );
        Ok(command)
    }

    /// Whether the current message is one that the link accepted and that has not been
    /// sent.
    pub fn is_unsent(&self) -> (unsent: bool)
        ensures
            unsent == (self@.state is Identifying && self@.runtime_result is None),
    {
        self.state == DeliveryState::Identifying && self.runtime_result.is_none()
    }

    /// Sends the current message. Yields the command to the runtime, unless the message
    /// has no payload: then it becomes a failed delivery.
    pub fn launch_current_delivery(
        &mut self,
        result_tx: oneshot::Sender<LinkReply>,
        receiver: oneshot::Receiver<LinkReply>,
        launched: Instant,
    ) -> (command: Option<LinkCommand>)
        ensures
            match old(self)@.payload() {
                Ok(_) => {
                    &&& final(self)@ == old(self)@.launched(receiver, launched)
                    &&& command matches Some(command)
                    &&& command@ == old(self)@.launch_command(result_tx)
                },
                Err(_) => {
                    &&& final(self)@ == (SessionView {
                        state: DeliveryState::Failed,
                        failure_reason: Some(old(self)@.launch_failure()),
                        ..old(self)@
                    })
                    &&& command is None
                },
            },
    {
        match self.launch_runtime_current_delivery(result_tx, receiver, launched) {
            Ok(command) => Some(command),
            Err(reason) => {
                self.state = DeliveryState::Failed;
                self.failure_reason = Some(reason);
                None
            },
        }
    }

    /// Lets the next waiting message have the link after one was unsuccessful, or
    /// leaves the link idle.
    pub fn finish_unsuccessful_reusable_delivery(&mut self, now: Instant)
        ensures
            final(self)@ == if old(self)@.link_state is Active && old(self)@.queue.len() > 0 {
                old(self)@.start_queued(now)
            } else {
                SessionView { failure_reason: None, state: DeliveryState::Idle, ..old(self)@ }
            },
    {
        self.failure_reason = None;
        if self.link.is_active() && self.start_queued_delivery(now) {
            return;
        }
        self.state = DeliveryState::Idle;
    }

    /// Whether a link that has been idle for so many nanoseconds is given up.
    pub fn direct_link_idle_expired(&self, idle: u128) -> (expired: bool)
        ensures
            expired == self@.idle_expired(idle),
    {
        if self.state != DeliveryState::Idle || !self.queue.is_empty() || !self.link.is_active() {
            return false;
        }
        idle > LINK_MAX_INACTIVITY
    }
}

/// Ends every waiting delivery of a session as failed.
pub fn fail_queued_deliveries(
    results: &mut Vec<DeliveryResult>,
    events: &mut VecDeque<LxmfDeliveryEvent>,
    link_id: [u8; 16],
    delivery: &mut PendingDelivery,
    reason: &str,
)
    ensures
        final(delivery)@ == old(delivery)@.drained(),
        event_views(final(events)@) == event_views(old(events)@) + old(
            delivery,
        )@.queue.map_values(
            |queued: QueuedView| queued.failed_event(link_id, old(delivery)@.dest_hash, reason@),
        ),
        result_views(final(results)@) == result_views(old(results)@) + old(
            delivery,
        )@.queue.map_values(
            |queued: QueuedView| queued.failed_result(link_id, old(delivery)@.dest_hash, reason@),
        ),
{
    let ghost queue = delivery@.queue;
    let ghost dest = delivery@.dest_hash;
    let ghost told = queue.map_values(
        |queued: QueuedView| queued.failed_event(link_id, dest, reason@),
    );
    let ghost handed = queue.map_values(
        |queued: QueuedView| queued.failed_result(link_id, dest, reason@),
    );
    let dest_hash = delivery.dest_hash;
    let drained = delivery.queue.drain();
    assert(queued_views(drained@) == queue);
    for queued in it: drained
        invariant
            queued_views(it.seq()) == queue,
            dest == dest_hash,
            told == queue.map_values(
                |queued: QueuedView| queued.failed_event(link_id, dest, reason@),
            ),
            handed == queue.map_values(
                |queued: QueuedView| queued.failed_result(link_id, dest, reason@),
            ),
            event_views(events@) == event_views(old(events)@) + told.take(it.index()),
            result_views(results@) == result_views(old(results)@) + handed.take(it.index()),
    {
        let ghost at = it.index();
        assert(queued_views(it.seq())[at] == queued@);
        let event = queued_delivery_event(link_id, dest_hash, &queued, reason);
        proof {
            lemma_event_views_push(events@, event);
            assert(told.take(at + 1) =~= told.take(at).push(event@));
        }
        events.push_back(event);
        let result = DeliveryResult::Failed {
            link_id,
            msg_hash: queued.msg_hash,
            dest_hash,
            message: queued.message,
            reason: reason.to_owned(),
        };
        proof {
            lemma_result_views_push(results@, result);
            assert(handed.take(at + 1) =~= handed.take(at).push(result@));
        }
        results.push(result);
    }
    assert(told.take(queue.len() as int) =~= told);
    assert(handed.take(queue.len() as int) =~= handed);
}

/// Ends the current delivery of a session as failed, and with it every one that
/// waits.
pub fn push_failed_delivery_and_queue(
    results: &mut Vec<DeliveryResult>,
    events: &mut VecDeque<LxmfDeliveryEvent>,
    link_id: [u8; 16],
    delivery: &mut PendingDelivery,
    reason: &str,
)
    ensures
        final(delivery)@ == old(delivery)@.drained(),
        event_views(final(events)@) == event_views(old(events)@) + old(delivery)@.failed_events(
            link_id,
            reason@,
        ),
        result_views(final(results)@) == result_views(old(results)@) + old(
            delivery,
        )@.failed_results(link_id, reason@),
{
    let event = delivery_event(
        LxmfDeliveryEventKind::Failed,
        link_id,
        delivery,
        Some(delivery.message.progress),
        Some(reason.to_owned()),
    );
    let result = DeliveryResult::Failed {
        link_id,
        msg_hash: delivery.msg_hash,
        dest_hash: delivery.dest_hash,
        message: delivery.message.clone(),
        reason: reason.to_owned(),
    };
    proof {
        lemma_event_views_push(events@, event);
        lemma_result_views_push(results@, result);
    }
    events.push_back(event);
    results.push(result);
    fail_queued_deliveries(results, events, link_id, delivery, reason);
    assert(event_views(events@) =~= event_views(old(events)@) + old(delivery)@.failed_events(
        link_id,
        reason@,
    ));
    assert(result_views(results@) =~= result_views(old(results)@) + old(
        delivery,
    )@.failed_results(link_id, reason@));
}

/// One round of a session, given the answer that came, if one came, how long the
/// current delivery has been under way in nanoseconds, and what the clock says. Says
/// whether the session goes on.
pub fn settle_session(
    results: &mut Vec<DeliveryResult>,
    events: &mut VecDeque<LxmfDeliveryEvent>,
    link_id: [u8; 16],
    delivery: &mut PendingDelivery,
    answer: Option<LinkReply>,
    elapsed: u128,
    now: Instant,
) -> (keep: bool)
    ensures
        ({
            let settled = old(delivery)@.settle(link_id, answer_view(answer), elapsed, now);
            &&& final(delivery)@ == settled.session
            &&& event_views(final(events)@) == event_views(old(events)@) + settled.events
            &&& result_views(final(results)@) == result_views(old(results)@) + settled.results
            &&& keep == settled.keep
        }),
{
    match answer {
        Some(Ok(receipt)) => {
            delivery.runtime_result = None;
            delivery.link.set_state(LinkState::Active);
            delivery.message.representation = match receipt {
                LinkPayloadSendReceipt::Packet => DeliveryRepresentation::Packet,
                LinkPayloadSendReceipt::Resource => DeliveryRepresentation::Resource,
            };
            delivery.message.progress = Progress { bits: PROGRESS_DONE };
            delivery.state = DeliveryState::Complete;
            delivery.backchannel_identified = true;
            let event = delivery_event(
                LxmfDeliveryEventKind::Delivered,
                link_id,
                delivery,
                Some(Progress { bits: PROGRESS_DONE }),
                None,
            );
            let result = DeliveryResult::Complete { link_id, msg_hash: delivery.msg_hash };
            proof {
                lemma_event_views_push(events@, event);
                lemma_result_views_push(results@, result);
            }
            events.push_back(event);
            results.push(result);
            if delivery.reusable {
                delivery.state = DeliveryState::Idle;
                delivery.started_at = now;
                true
            } else {
                false
            }
        },
        Some(Err(reason)) => {
            delivery.runtime_result = None;
            delivery.link.set_state(LinkState::Closed);
            push_failed_delivery_and_queue(results, events, link_id, delivery, reason.as_str());
            false
        },
        None => {
            if delivery.state != DeliveryState::Idle && elapsed > delivery.timeout {
                push_failed_delivery_and_queue(
                    results,
                    events,
                    link_id,
                    delivery,
                    "delivery timeout",
                );
                false
            } else {
                true
            }
        },
    }
}

} // verus!
