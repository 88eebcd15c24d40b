//! The mathematical model of the delivery manager: its state, and what each
//! operation makes of it.

use std::time::Instant;
use tokio::sync::{mpsc, oneshot};
use vstd::prelude::*;

use crate::backchannel::{
    backchannel_event, BackchannelProofKey, BackchannelReply, BackchannelSendCommand,
    BackchannelSendReceipt, ProofWaitView, StartView, BACKCHANNEL_DELIVERY_TIMEOUT,
    BACKCHANNEL_SEND_COMMAND_TIMEOUT,
};
use crate::channel::{backchannel_reply_seen, link_answer_channel, link_reply_seen, Offer, Poll};
use crate::clock::{clock_read, elapsed_read};
use crate::commands::{CommandView, LinkPayloadSendReceipt, LinkReply};
use crate::events::{
    EventView, LxmfDeliveryEventKind, LxmfDeliveryEventMethod, ResultView,
};
use crate::keyed::{keyed_by, unique_keys, value_of, with_entry, without_key};
use crate::link_table::destinations_of;
use crate::message::LxMessageView;
use crate::queue::queued_index;
use crate::seqs::{count_where, first_where, total};
use crate::session::{answer_in, SessionView};
use crate::text::hex_text;
use crate::types::{
    DeliveryRepresentation, DeliveryState, LinkState, Progress, PROGRESS_DONE,
    PROGRESS_LINK_PENDING, PROGRESS_LINK_READY, PROGRESS_PACKET_SENT, PROGRESS_RESOURCE_STARTED,
};

verus! {

/// The clock rates of the links that the runtime opens, in nanoseconds.
#[derive(Debug, Clone, Copy, PartialEq, Eq, Structural)]
pub struct LinkTiming {
    /// How long establishing a link may take for each hop.
    pub establishment_per_hop: u64,
    /// How long an established link stays up without traffic.
    pub keepalive: u64,
}

impl LinkTiming {
    /// How long establishing a link over so many hops may take. A destination is at
    /// least one hop away.
    pub open spec fn establishment(self, hops: u8) -> int {
        self.establishment_per_hop * (if hops < 1 {
            1int
        } else {
            hops as int
        })
    }

    /// How long a delivery over so many hops may take once the link is up.
    pub open spec fn delivery(self, hops: u8) -> int {
        self.establishment(hops) + self.keepalive
    }

    /// How long establishing a link over so many hops may take, in nanoseconds.
    pub fn establishment_timeout(&self, hops: u8) -> (nanos: u128)
        ensures
            nanos == self.establishment(hops),
            nanos <= u64::MAX * 255,
    {
        let counted: u128 = if hops < 1 {
            1
        } else {
            hops as u128
        };
        let per_hop = self.establishment_per_hop as u128;
        assert(per_hop * counted <= u64::MAX * 255) by (nonlinear_arith)
            requires
                per_hop <= u64::MAX,
                counted <= 255,
        ;
        per_hop * counted
    }

    /// How long a delivery over so many hops may take once the link is up, in
    /// nanoseconds.
    pub fn delivery_timeout(&self, hops: u8) -> (nanos: u128)
        ensures
            nanos == self.delivery(hops),
    {
        self.establishment_timeout(hops) + self.keepalive as u128
    }
}

/// How a Direct delivery was attached to link state.
#[derive(Debug, Clone, Copy, PartialEq, Eq, Structural)]
pub enum DirectLinkStartKind {
    /// A new outbound Direct link was requested.
    NewDirect,
    /// An existing active link accepted the message immediately.
    ReusedActiveDirect,
    /// The message was queued behind a pending or busy reusable link.
    QueuedOnDirect,
}

/// The content of a start report.
#[verifier::ext_equal]
pub struct StartReportView {
    pub link_id: [u8; 16],
    pub dest_hash: [u8; 16],
    pub kind: DirectLinkStartKind,
    pub link_state: LinkState,
    pub delivery_state: DeliveryState,
    pub queued_deliveries: nat,
    pub in_flight_deliveries: nat,
}

/// The content of a request to open a link for a message.
#[verifier::ext_equal]
pub struct OpenRequestView {
    pub message: LxMessageView,
    pub dest_hash: [u8; 16],
    pub hops: u8,
    pub public_key: [u8; 64],
    pub payload: Seq<u8>,
    pub auto_compress: bool,
    pub reusable: bool,
    pub establishment_timeout: u128,
    pub timeout: u128,
    pub inbound_packet_tx: Option<mpsc::Sender<(Vec<u8>, [u8; 16])>>,
}

impl OpenRequestView {
    /// The session on the new link. The payload is on its way with the request to
    /// open the link.
    pub open spec fn session(
        self,
        link_id: [u8; 16],
        receiver: oneshot::Receiver<LinkReply>,
        now: Instant,
    ) -> SessionView {
        SessionView {
            message: self.message,
            dest_hash: self.dest_hash,
            packed_override: None,
            auto_compress: self.reusable || self.auto_compress,
            link_id,
            link_state: LinkState::Pending,
            state: DeliveryState::Establishing,
            started_at: now,
            runtime_result: Some(receiver),
            establishment_timeout: self.establishment_timeout,
            timeout: self.timeout,
            msg_hash: self.message.hash,
            failure_reason: None,
            reusable: self.reusable,
            backchannel_identified: !self.reusable,
            queue: Seq::empty(),
        }
    }

    /// The command that sends the payload over the new link. A link that is used once
    /// identifies the sender first.
    pub open spec fn send_command(
        self,
        link_id: [u8; 16],
        result_tx: oneshot::Sender<LinkReply>,
    ) -> CommandView {
        CommandView::SendPayload {
            link_id,
            payload: self.payload,
            auto_compress: self.auto_compress,
            deadline: self.timeout,
            identify_before_send: !self.reusable,
            result_tx,
        }
    }

    /// The event that tells that a Direct link is being established.
    pub open spec fn establishing_event(self, link_id: [u8; 16]) -> EventView {
        EventView {
            kind: LxmfDeliveryEventKind::LinkEstablishing,
            method: LxmfDeliveryEventMethod::Direct,
            link_id,
            dest_hash: self.dest_hash,
            msg_hash: self.message.hash,
            attempts: self.message.delivery_attempts,
            progress: Some(Progress { bits: PROGRESS_LINK_PENDING }),
            representation: DeliveryRepresentation::Unknown,
            link_state: LinkState::Pending,
            delivery_state: DeliveryState::Establishing,
            queued_deliveries: 0,
            in_flight_deliveries: 1,
            reason: None,
        }
    }

    /// The report of a new link.
    pub open spec fn report(self, link_id: [u8; 16]) -> StartReportView {
        StartReportView {
            link_id,
            dest_hash: self.dest_hash,
            kind: DirectLinkStartKind::NewDirect,
            link_state: LinkState::Pending,
            delivery_state: DeliveryState::Establishing,
            queued_deliveries: 0,
            in_flight_deliveries: 1,
        }
    }
}

/// What the answer channel and the clock showed of an unanswered send command.
pub struct StartObservation {
    /// What the look at the answer channel found.
    pub reply: Poll<BackchannelReply>,
    /// How long the command has been waiting for its answer, in nanoseconds.
    pub waited: u128,
    pub now: Instant,
}

impl StartObservation {
    /// Whether this was seen of an unanswered command: its own answer channel was
    /// looked at, where nothing was there, its own age was read, and the clock was read.
    pub open spec fn of(self, start: StartView) -> bool {
        &&& backchannel_reply_seen(start.receiver, self.reply)
        &&& self.reply is Empty ==> elapsed_read(start.requested_at, self.waited)
        &&& clock_read(self.now)
    }
}

/// What the answer channel and the clock showed of a session in one round.
pub struct SessionObservation {
    /// The answer channel for a message that is being sent now, and the times at which
    /// it became the current one and was sent.
    pub result_tx: oneshot::Sender<LinkReply>,
    pub receiver: oneshot::Receiver<LinkReply>,
    pub started: Instant,
    pub launched: Instant,
    /// What the look at the answer channel of the current message found. Where there
    /// is no answer channel, nothing was found.
    pub found: Poll<LinkReply>,
    /// How long the current delivery has been under way, in nanoseconds.
    pub elapsed: u128,
    pub now: Instant,
}

/// A session after its waiting message was sent, if its link was free, and the
/// commands that this takes.
pub struct LaunchedSession {
    pub session: SessionView,
    pub commands: Seq<CommandView>,
}

impl SessionView {
    /// The session with the message that is to be sent now as the current one, if there
    /// is one: the message that waited longest, where the link is idle, or the current
    /// one, where the link accepted it and it has not been sent.
    pub open spec fn to_be_sent(self, started: Instant) -> Option<SessionView> {
        if self.state is Idle && self.queue.len() > 0 {
            Some(self.start_queued(started))
        } else if self.state is Identifying && self.runtime_result is None {
            Some(self)
        } else {
            None
        }
    }

    /// Sends the message that is to be sent now. A message without payload becomes a
    /// failed delivery, which runs out of time later.
    pub open spec fn launch_waiting(self, seen: SessionObservation) -> LaunchedSession {
        match self.to_be_sent(seen.started) {
            Some(current) => match current.payload() {
                Ok(_) => LaunchedSession {
                    session: current.launched(seen.receiver, seen.launched),
                    commands: seq![current.launch_command(seen.result_tx)],
                },
                Err(_) => LaunchedSession {
                    session: SessionView {
                        state: DeliveryState::Failed,
                        failure_reason: Some(current.launch_failure()),
                        ..current
                    },
                    commands: Seq::empty(),
                },
            },
            None => LaunchedSession { session: self, commands: Seq::empty() },
        }
    }

    /// Whether this was seen of the session: a message that is to be sent now got a
    /// channel for its answer, the answer channel of the current message was looked at,
    /// where nothing was there, the age of the current delivery was read, and every time
    /// that is noted was read off the clock.
    pub open spec fn saw(self, seen: SessionObservation) -> bool {
        let current = self.launch_waiting(seen).session;
        &&& self.to_be_sent(seen.started) is Some ==> {
            &&& link_answer_channel(seen.result_tx, seen.receiver)
            &&& clock_read(seen.started)
            &&& clock_read(seen.launched)
        }
        &&& match current.runtime_result {
            Some(receiver) => link_reply_seen(receiver, seen.found),
            None => seen.found is Empty,
        }
        &&& seen.found is Empty && current.state !is Idle ==> elapsed_read(
            current.started_at,
            seen.elapsed,
        )
        &&& clock_read(seen.now)
    }

    /// Takes a Direct message behind all others. Where the link is idle and active, the
    /// message that waited longest becomes the current one.
    pub open spec fn attach(self, message: LxMessageView, now: Instant) -> SessionView {
        let waiting = self.enqueue(message, None, true);
        if self.state is Idle && self.link_state is Active {
            waiting.start_queued(now)
        } else {
            waiting
        }
    }

    /// How the session takes a Direct message: an idle active link accepts it at once,
    /// unless others wait for the link already.
    pub open spec fn attach_kind(self) -> DirectLinkStartKind {
        if self.state is Idle && self.link_state is Active && self.queue.len() == 0 {
            DirectLinkStartKind::ReusedActiveDirect
        } else {
            DirectLinkStartKind::QueuedOnDirect
        }
    }

    /// The report of a message that this session took, where `after` is the session
    /// with the message.
    pub open spec fn attach_report(
        self,
        after: SessionView,
        link_id: [u8; 16],
        dest_hash: [u8; 16],
    ) -> StartReportView {
        StartReportView {
            link_id,
            dest_hash,
            kind: self.attach_kind(),
            link_state: self.link_state,
            delivery_state: after.state,
            queued_deliveries: after.queue.len(),
            in_flight_deliveries: after.in_flight(),
        }
    }

    /// The event that tells that this session took a message, where `after` is the
    /// session with the message.
    pub open spec fn attach_event(
        self,
        after: SessionView,
        link_id: [u8; 16],
        dest_hash: [u8; 16],
        message: LxMessageView,
    ) -> EventView {
        EventView {
            kind: match self.attach_kind() {
                DirectLinkStartKind::ReusedActiveDirect => LxmfDeliveryEventKind::DirectLinkReused,
                _ => LxmfDeliveryEventKind::DirectLinkPending,
            },
            method: LxmfDeliveryEventMethod::Direct,
            link_id,
            dest_hash,
            msg_hash: message.hash,
            attempts: message.delivery_attempts,
            progress: Some(
                if self.link_state is Active {
                    Progress { bits: PROGRESS_LINK_READY }
                } else {
                    Progress { bits: PROGRESS_LINK_PENDING }
                },
            ),
            representation: DeliveryRepresentation::Unknown,
            link_state: self.link_state,
            delivery_state: after.state,
            queued_deliveries: after.queue.len(),
            in_flight_deliveries: after.in_flight(),
            reason: None,
        }
    }

    /// Whether a message with this hash is the current one or waits.
    pub open spec fn holds(self, msg_hash: [u8; 32]) -> bool {
        self.msg_hash == Some(msg_hash) || queued_index(self.queue, msg_hash) is Some
    }

    /// Whether a message with this hash is under way or waits.
    pub open spec fn carries(self, msg_hash: [u8; 32]) -> bool {
        (self.state !is Idle && self.msg_hash == Some(msg_hash)) || queued_index(
            self.queue,
            msg_hash,
        ) is Some
    }
}

/// The content of a message snapshot.
#[verifier::ext_equal]
pub struct MessageSnapshotView {
    pub link_id: [u8; 16],
    pub dest_hash: [u8; 16],
    pub link_state: LinkState,
    pub delivery_state: DeliveryState,
    pub representation: DeliveryRepresentation,
    pub progress: Progress,
    pub queued: bool,
    pub queued_deliveries: nat,
    pub in_flight_deliveries: nat,
}

/// The content of a link snapshot.
#[verifier::ext_equal]
pub struct LinkSnapshotView {
    pub link_id: [u8; 16],
    pub dest_hash: [u8; 16],
    pub link_state: LinkState,
    pub delivery_state: DeliveryState,
    pub idle_expired: bool,
    pub queued_deliveries: nat,
    pub in_flight_deliveries: nat,
}

/// The content of a backchannel snapshot.
#[verifier::ext_equal]
pub struct BackchannelSnapshotView {
    pub link_id: [u8; 16],
    pub dest_hash: [u8; 16],
    pub queued_deliveries: nat,
    pub in_flight_deliveries: nat,
}

/// The content of the aggregate numbers.
#[verifier::ext_equal]
pub struct StatsView {
    pub sessions: nat,
    pub direct_sessions: nat,
    pub one_shot_sessions: nat,
    pub backchannel_sessions: nat,
    pub establishing_direct_sessions: nat,
    pub active_direct_sessions: nat,
    pub idle_direct_sessions: nat,
    pub queued_deliveries: nat,
    pub in_flight_deliveries: nat,
    pub pending_backchannel_starts: nat,
    pub pending_backchannel_deliveries: nat,
}

/// The state of the delivery manager.
#[verifier::ext_equal]
pub struct ManagerState {
    /// The clock rates of the runtime, once there is one.
    pub runtime: Option<LinkTiming>,
    /// Public keys by hexadecimal destination hash.
    pub known_identities: Seq<(Seq<char>, [u8; 64])>,
    /// Reusable Direct links by destination.
    pub direct_links: Map<[u8; 16], [u8; 16]>,
    /// Reusable inbound backchannels by remote destination.
    pub backchannel_links: Map<[u8; 16], [u8; 16]>,
    /// The outbound links with what they carry, by link, in the order of opening.
    pub sessions: Seq<([u8; 16], SessionView)>,
    pub backchannel_tx: Option<mpsc::Sender<BackchannelSendCommand>>,
    /// All send commands that were offered to the runtime, in order.
    pub offers: Seq<Offer>,
    pub inbound_packet_tx: Option<mpsc::Sender<(Vec<u8>, [u8; 16])>>,
    /// Send commands without an answer, in the order of sending.
    pub starts: Seq<StartView>,
    /// Sends that wait for their proof, in the order of their receipts.
    pub waits: Seq<(BackchannelProofKey, ProofWaitView)>,
    /// Events that the application has not taken.
    pub events: Seq<EventView>,
    /// Commands that the runtime has not taken.
    pub commands: Seq<CommandView>,
}

/// A state, and the results that were handed out on the way to it.
pub struct Round {
    pub state: ManagerState,
    pub results: Seq<ResultView>,
}

/// The deliveries that a list of sessions owns.
pub open spec fn owned_by(sessions: Seq<([u8; 16], SessionView)>) -> nat {
    total(sessions, |entry: ([u8; 16], SessionView)| entry.1.owned())
}

/// What holds of one session: it is entered under its own link; only a reusable link
/// can be idle, and an idle link carries data and waits for no answer; only on a
/// reusable link do messages wait; and the cache leads from its destination to it
/// exactly if it is reusable.
pub open spec fn session_coherent(
    direct_links: Map<[u8; 16], [u8; 16]>,
    entry: ([u8; 16], SessionView),
) -> bool {
    let (link_id, session) = entry;
    &&& session.link_id == link_id
    &&& session.state is Idle ==> {
        &&& session.reusable
        &&& session.link_state is Active
        &&& session.runtime_result is None
    }
    &&& !session.reusable ==> session.queue.len() == 0
    &&& session.reusable ==> {
        &&& direct_links.contains_key(session.dest_hash)
        &&& direct_links[session.dest_hash] == link_id
    }
}

/// Whether a cached link has the reusable session to its destination.
pub open spec fn cache_entry_coherent(
    sessions: Seq<([u8; 16], SessionView)>,
    dest_hash: [u8; 16],
    link_id: [u8; 16],
) -> bool {
    exists|i: int|
        {
            &&& 0 <= i < sessions.len()
            &&& (#[trigger] sessions[i]).0 == link_id
            &&& sessions[i].1.reusable
            &&& sessions[i].1.dest_hash == dest_hash
        }
}

/// What holds of a cache and the sessions that it leads to.
pub open spec fn links_coherent(
    direct_links: Map<[u8; 16], [u8; 16]>,
    sessions: Seq<([u8; 16], SessionView)>,
) -> bool {
    &&& unique_keys(sessions)
    &&& forall|i: int|
        0 <= i < sessions.len() ==> session_coherent(direct_links, #[trigger] sessions[i])
    &&& forall|d: [u8; 16]| #[trigger]
        direct_links.contains_key(d) ==> cache_entry_coherent(sessions, d, direct_links[d])
}

impl ManagerState {
    /// A manager that has done nothing yet.
    pub open spec fn initial() -> Self {
        ManagerState {
            runtime: None,
            known_identities: Seq::empty(),
            direct_links: Map::empty(),
            backchannel_links: Map::empty(),
            sessions: Seq::empty(),
            backchannel_tx: None,
            offers: Seq::empty(),
            inbound_packet_tx: None,
            starts: Seq::empty(),
            waits: Seq::empty(),
            events: Seq::empty(),
            commands: Seq::empty(),
        }
    }

    /// How many deliveries the manager owns.
    pub open spec fn delivery_count(self) -> nat {
        owned_by(self.sessions) + self.starts.len() + self.waits.len()
    }

    /// What holds while an operation is under way: no link and no proof is entered
    /// twice, and the deliveries can be counted.
    pub open spec fn sound(self) -> bool {
        &&& unique_keys(self.sessions)
        &&& unique_keys(self.waits)
        &&& self.delivery_count() <= usize::MAX
    }

    /// Whether the sessions are coherent, and the cache of Direct links leads to the
    /// reusable ones.
    pub open spec fn coherent(self) -> bool {
        links_coherent(self.direct_links, self.sessions)
    }

    /// What holds between any two operations.
    pub open spec fn wf(self) -> bool {
        &&& self.sound()
        &&& self.coherent()
    }

    /// The state with one more session, behind all others.
    pub open spec fn with_session(self, entry: ([u8; 16], SessionView)) -> Self {
        ManagerState { sessions: self.sessions.push(entry), ..self }
    }

    /// The state after one more offer to the runtime.
    pub open spec fn with_offer(self, offer: Offer) -> Self {
        ManagerState { offers: self.offers.push(offer), ..self }
    }

    /// The public key of a destination, if it is known.
    pub open spec fn known_key(self, dest_hash: [u8; 16]) -> Option<[u8; 64]> {
        match first_where(self.known_identities, keyed_by(hex_text(dest_hash@))) {
            Some(i) => Some(self.known_identities[i].1),
            None => None,
        }
    }

    /// The session on the cached link to a destination.
    pub open spec fn cached_session(self, dest_hash: [u8; 16]) -> Option<SessionView> {
        if self.direct_links.contains_key(dest_hash) {
            value_of(self.sessions, self.direct_links[dest_hash])
        } else {
            None
        }
    }

    /// Whether the clock was read this many nanoseconds after the cached link to a
    /// destination last changed hands. Without such a link no reading is needed.
    pub open spec fn idle_read(self, dest_hash: [u8; 16], idle: u128) -> bool {
        match self.cached_session(dest_hash) {
            Some(session) => elapsed_read(session.started_at, idle),
            None => true,
        }
    }

    /// Whether the cached link to a destination can take another message, if it has
    /// been idle for so long.
    pub open spec fn attachable(self, dest_hash: [u8; 16], idle: u128) -> bool {
        match self.cached_session(dest_hash) {
            Some(session) => session.reusable && !session.idle_expired(idle),
            None => false,
        }
    }

    /// The state after the cached link to a destination took a message.
    pub open spec fn attached(
        self,
        message: LxMessageView,
        dest_hash: [u8; 16],
        now: Instant,
    ) -> Self {
        let link_id = self.direct_links[dest_hash];
        let session = self.cached_session(dest_hash)->0;
        let after = session.attach(message, now);
        ManagerState {
            sessions: with_entry(self.sessions, link_id, after),
            events: self.events.push(session.attach_event(after, link_id, dest_hash, message)),
            ..self
        }
    }

    /// The report of a message that the cached link to a destination took.
    pub open spec fn attached_report(
        self,
        message: LxMessageView,
        dest_hash: [u8; 16],
        now: Instant,
    ) -> StartReportView {
        let session = self.cached_session(dest_hash)->0;
        session.attach_report(
            session.attach(message, now),
            self.direct_links[dest_hash],
            dest_hash,
        )
    }

    /// The state without a cached link that cannot take another message. A link that
    /// has been idle for too long is closed.
    pub open spec fn released(self, dest_hash: [u8; 16], idle: u128) -> Self {
        if !self.direct_links.contains_key(dest_hash) {
            self
        } else {
            let link_id = self.direct_links[dest_hash];
            match self.cached_session(dest_hash) {
                Some(session) if session.reusable && session.idle_expired(idle) => ManagerState {
                    sessions: without_key(self.sessions, link_id),
                    direct_links: self.direct_links.remove(dest_hash),
                    commands: self.commands.push(CommandView::Close { link_id }).push(
                        CommandView::DeregisterDestination { link_id },
                    ),
                    ..self
                },
                _ => ManagerState { direct_links: self.direct_links.remove(dest_hash), ..self },
            }
        }
    }

    /// The request to open a link for a Direct message, where one can be opened: there
    /// is a runtime, the destination's key is known, and the message has a wire form.
    pub open spec fn direct_request(
        self,
        message: LxMessageView,
        dest_hash: [u8; 16],
        hops: u8,
    ) -> Option<OpenRequestView> {
        match (self.runtime, self.known_key(dest_hash), message.packed) {
            (Some(timing), Some(public_key), Ok(payload)) => Some(
                OpenRequestView {
                    message,
                    dest_hash,
                    hops,
                    public_key,
                    payload,
                    auto_compress: message.auto_compress,
                    reusable: true,
                    establishment_timeout: timing.establishment(hops) as u128,
                    timeout: timing.delivery(hops) as u128,
                    inbound_packet_tx: self.inbound_packet_tx,
                },
            ),
            _ => None,
        }
    }

    /// The request to open a link for an already packed message, where one can be
    /// opened.
    pub open spec fn packed_request(
        self,
        message: LxMessageView,
        dest_hash: [u8; 16],
        hops: u8,
        payload: Seq<u8>,
        auto_compress: bool,
    ) -> Option<OpenRequestView> {
        match (self.runtime, self.known_key(dest_hash)) {
            (Some(timing), Some(public_key)) => Some(
                OpenRequestView {
                    message,
                    dest_hash,
                    hops,
                    public_key,
                    payload,
                    auto_compress,
                    reusable: false,
                    establishment_timeout: timing.establishment(hops) as u128,
                    timeout: timing.delivery(hops) as u128,
                    inbound_packet_tx: None,
                },
            ),
            _ => None,
        }
    }

    /// The state after the runtime opened a link for a message.
    pub open spec fn opened(
        self,
        request: OpenRequestView,
        link_id: [u8; 16],
        result_tx: oneshot::Sender<LinkReply>,
        receiver: oneshot::Receiver<LinkReply>,
        now: Instant,
    ) -> Self {
        ManagerState {
            sessions: with_entry(self.sessions, link_id, request.session(link_id, receiver, now)),
            direct_links: if request.reusable {
                self.direct_links.insert(request.dest_hash, link_id)
            } else {
                self.direct_links
            },
            commands: self.commands.push(request.send_command(link_id, result_tx)),
            events: if request.reusable {
                self.events.push(request.establishing_event(link_id))
            } else {
                self.events
            },
            ..self
        }
    }

    /// The event that tells that a backchannel takes a message.
    pub open spec fn backchannel_reused_event(
        self,
        message: LxMessageView,
        dest_hash: [u8; 16],
        link_id: [u8; 16],
    ) -> EventView {
        EventView {
            kind: LxmfDeliveryEventKind::BackchannelLinkReused,
            method: LxmfDeliveryEventMethod::Direct,
            link_id,
            dest_hash,
            msg_hash: message.hash,
            attempts: message.delivery_attempts,
            progress: Some(Progress { bits: PROGRESS_LINK_READY }),
            representation: DeliveryRepresentation::Unknown,
            link_state: LinkState::Active,
            delivery_state: DeliveryState::Transferring,
            queued_deliveries: self.starts.len(),
            in_flight_deliveries: self.waits.len() + 1,
            reason: None,
        }
    }

    /// The state after the runtime took a send command.
    pub open spec fn backchannel_started(
        self,
        message: LxMessageView,
        dest_hash: [u8; 16],
        link_id: [u8; 16],
        receiver: oneshot::Receiver<BackchannelReply>,
        now: Instant,
    ) -> Self {
        ManagerState {
            events: self.events.push(self.backchannel_reused_event(message, dest_hash, link_id)),
            starts: self.starts.push(
                StartView { receiver, message, dest_hash, link_id, requested_at: now },
            ),
            ..self
        }
    }

    /// The state without the backchannel to a destination.
    pub open spec fn without_backchannel(self, dest_hash: [u8; 16]) -> Self {
        ManagerState { backchannel_links: self.backchannel_links.remove(dest_hash), ..self }
    }

    /// Ends an unanswered send as failed and gives its backchannel up.
    pub open spec fn fail_start(self, start: StartView, reason: Seq<char>) -> Round {
        Round {
            state: ManagerState {
                backchannel_links: self.backchannel_links.remove(start.dest_hash),
                events: self.events.push(start.failed_event(reason)),
                ..self
            },
            results: seq![start.failed_result(reason)],
        }
    }

    /// Ends a send that awaits its proof as failed and gives its backchannel up.
    pub open spec fn fail_wait(self, wait: ProofWaitView, reason: Seq<char>) -> Round {
        Round {
            state: ManagerState {
                backchannel_links: self.backchannel_links.remove(wait.dest_hash),
                events: self.events.push(wait.failed_event(reason)),
                ..self
            },
            results: seq![wait.failed_result(reason)],
        }
    }

    /// The runtime has sent a message: it now waits for the proof that the receipt
    /// names.
    pub open spec fn receipted(
        self,
        start: StartView,
        receipt: BackchannelSendReceipt,
        now: Instant,
    ) -> Self {
        let (key, representation, progress, kind) = match receipt {
            BackchannelSendReceipt::Packet { link_id, packet_hash } => (
                BackchannelProofKey::Packet(link_id, packet_hash),
                DeliveryRepresentation::Packet,
                Progress { bits: PROGRESS_PACKET_SENT },
                LxmfDeliveryEventKind::AwaitingProof,
            ),
            BackchannelSendReceipt::Resource { link_id, resource_hash } => (
                BackchannelProofKey::Resource(link_id, resource_hash),
                DeliveryRepresentation::Resource,
                Progress { bits: PROGRESS_RESOURCE_STARTED },
                LxmfDeliveryEventKind::TransferStarted,
            ),
        };
        ManagerState {
            events: self.events.push(
                backchannel_event(
                    kind,
                    start.message,
                    start.dest_hash,
                    start.link_id,
                    representation,
                    Some(progress),
                    None,
                    LinkState::Active,
                    DeliveryState::AwaitingProof,
                ),
            ),
            waits: with_entry(
                self.waits,
                key,
                ProofWaitView {
                    message: start.message,
                    dest_hash: start.dest_hash,
                    link_id: start.link_id,
                    representation,
                    started_at: now,
                },
            ),
            ..self
        }
    }

    /// One round of an unanswered send command that was taken off the list.
    pub open spec fn settle_start(self, start: StartView, seen: StartObservation) -> Round {
        match seen.reply {
            Poll::Ready(Ok(receipt)) => Round {
                state: self.receipted(start, receipt, seen.now),
                results: Seq::empty(),
            },
            Poll::Ready(Err(error)) => self.fail_start(start, error.text()),
            Poll::Empty => if seen.waited > BACKCHANNEL_SEND_COMMAND_TIMEOUT {
                self.fail_start(start, "backchannel send command timeout"@)
            } else {
                Round {
                    state: ManagerState { starts: self.starts.push(start), ..self },
                    results: Seq::empty(),
                }
            },
            Poll::Closed => self.fail_start(start, "backchannel send command closed"@),
        }
    }

    /// One round of a list of unanswered send commands, one after the other.
    pub open spec fn settle_starts(
        self,
        starts: Seq<StartView>,
        seen: Seq<StartObservation>,
    ) -> Round
        decreases starts.len(),
    {
        if starts.len() == 0 {
            Round { state: self, results: Seq::empty() }
        } else {
            let before = self.settle_starts(starts.drop_last(), seen.drop_last());
            let last = before.state.settle_start(starts.last(), seen.last());
            Round { state: last.state, results: before.results + last.results }
        }
    }

    /// One round of a send that waits for its proof and was taken off the list, if it
    /// has been waiting for so long.
    pub open spec fn age_wait(
        self,
        entry: (BackchannelProofKey, ProofWaitView),
        age: u128,
    ) -> Round {
        if age > BACKCHANNEL_DELIVERY_TIMEOUT {
            self.fail_wait(entry.1, "backchannel delivery timeout"@)
        } else {
            Round {
                state: ManagerState { waits: self.waits.push(entry), ..self },
                results: Seq::empty(),
            }
        }
    }

    /// One round of a list of sends that wait for their proofs, one after the other.
    pub open spec fn age_waits(
        self,
        waits: Seq<(BackchannelProofKey, ProofWaitView)>,
        ages: Seq<u128>,
    ) -> Round
        decreases waits.len(),
    {
        if waits.len() == 0 {
            Round { state: self, results: Seq::empty() }
        } else {
            let before = self.age_waits(waits.drop_last(), ages.drop_last());
            let last = before.state.age_wait(waits.last(), ages.last());
            Round { state: last.state, results: before.results + last.results }
        }
    }

    /// One round of all unanswered send commands.
    pub open spec fn answered(self, seen: Seq<StartObservation>) -> Round {
        (ManagerState { starts: Seq::empty(), ..self }).settle_starts(self.starts, seen)
    }

    /// One round of all sends that wait for their proofs.
    pub open spec fn aged(self, ages: Seq<u128>) -> Round {
        (ManagerState { waits: Seq::empty(), ..self }).age_waits(self.waits, ages)
    }

    /// One round of the backchannels: the answers first, then the proofs that are
    /// overdue.
    pub open spec fn tick_backchannels(
        self,
        seen: Seq<StartObservation>,
        ages: Seq<u128>,
    ) -> Round {
        let answered = self.answered(seen);
        let aged = answered.state.aged(ages);
        Round { state: aged.state, results: answered.results + aged.results }
    }

    /// One round of a session that was taken off the list and has sent what it could,
    /// given the answer that came, if one came, and how long the current delivery has
    /// been under way. A session that does not go on is closed and forgotten.
    pub open spec fn conclude_session(
        self,
        link_id: [u8; 16],
        session: SessionView,
        answer: Option<Result<LinkPayloadSendReceipt, Seq<char>>>,
        elapsed: u128,
        now: Instant,
    ) -> Round {
        let settled = session.settle(link_id, answer, elapsed, now);
        Round {
            state: if settled.keep {
                ManagerState {
                    sessions: self.sessions.push((link_id, settled.session)),
                    events: self.events + settled.events,
                    ..self
                }
            } else {
                ManagerState {
                    direct_links: if settled.session.reusable {
                        self.direct_links.remove(settled.session.dest_hash)
                    } else {
                        self.direct_links
                    },
                    commands: self.commands.push(CommandView::Close { link_id }),
                    events: self.events + settled.events,
                    ..self
                }
            },
            results: settled.results,
        }
    }

    /// One round of a session that was taken off the list.
    pub open spec fn settle_session(
        self,
        entry: ([u8; 16], SessionView),
        seen: SessionObservation,
    ) -> Round {
        let launched = entry.1.launch_waiting(seen);
        (ManagerState { commands: self.commands + launched.commands, ..self }).conclude_session(
            entry.0,
            launched.session,
            answer_in(seen.found),
            seen.elapsed,
            seen.now,
        )
    }

    /// One round of a list of sessions, one after the other.
    pub open spec fn settle_sessions(
        self,
        sessions: Seq<([u8; 16], SessionView)>,
        seen: Seq<SessionObservation>,
    ) -> Round
        decreases sessions.len(),
    {
        if sessions.len() == 0 {
            Round { state: self, results: Seq::empty() }
        } else {
            let before = self.settle_sessions(sessions.drop_last(), seen.drop_last());
            let last = before.state.settle_session(sessions.last(), seen.last());
            Round { state: last.state, results: before.results + last.results }
        }
    }

    /// One round of the sessions.
    pub open spec fn tick_sessions(self, seen: Seq<SessionObservation>) -> Round {
        (ManagerState { sessions: Seq::empty(), ..self }).settle_sessions(self.sessions, seen)
    }

    /// Whether this was seen of the unanswered commands.
    pub open spec fn saw_starts(self, seen: Seq<StartObservation>) -> bool {
        &&& seen.len() == self.starts.len()
        &&& forall|i: int| 0 <= i < seen.len() ==> (#[trigger] seen[i]).of(self.starts[i])
    }

    /// Whether these ages were read of the sends that wait for their proofs.
    pub open spec fn saw_waits(self, ages: Seq<u128>) -> bool {
        &&& ages.len() == self.waits.len()
        &&& forall|i: int|
            0 <= i < ages.len() ==> elapsed_read(self.waits[i].1.started_at, #[trigger] ages[i])
    }

    /// Whether this was seen of the sessions.
    pub open spec fn saw_sessions(self, seen: Seq<SessionObservation>) -> bool {
        &&& seen.len() == self.sessions.len()
        &&& forall|i: int|
            0 <= i < seen.len() ==> self.sessions[i].1.saw(#[trigger] seen[i])
    }

    /// Whether this was seen in a whole round: of the unanswered commands, of the
    /// waits that are there once the answers are in, and of the sessions.
    pub open spec fn saw(
        self,
        starts_seen: Seq<StartObservation>,
        ages: Seq<u128>,
        sessions_seen: Seq<SessionObservation>,
    ) -> bool {
        &&& self.saw_starts(starts_seen)
        &&& self.answered(starts_seen).state.saw_waits(ages)
        &&& self.saw_sessions(sessions_seen)
    }

    /// A whole round: the backchannels, then the sessions.
    pub open spec fn tick(
        self,
        starts_seen: Seq<StartObservation>,
        ages: Seq<u128>,
        sessions_seen: Seq<SessionObservation>,
    ) -> Round {
        let first = self.tick_backchannels(starts_seen, ages);
        let second = first.state.tick_sessions(sessions_seen);
        Round { state: second.state, results: first.results + second.results }
    }

    /// The state after a proof came for a send that waited for it.
    pub open spec fn proved(self, key: BackchannelProofKey) -> Self {
        let wait = value_of(self.waits, key)->0;
        ManagerState {
            waits: without_key(self.waits, key),
            events: self.events.push(
                backchannel_event(
                    LxmfDeliveryEventKind::Delivered,
                    wait.message,
                    wait.dest_hash,
                    wait.link_id,
                    wait.representation,
                    Some(Progress { bits: PROGRESS_DONE }),
                    None,
                    LinkState::Active,
                    DeliveryState::Complete,
                ),
            ),
            ..self
        }
    }

    /// The result of a proof, if a send waited for it.
    pub open spec fn proof_result(self, key: BackchannelProofKey) -> Option<ResultView> {
        match value_of(self.waits, key) {
            Some(wait) => Some(
                ResultView::Complete { link_id: wait.link_id, msg_hash: wait.message.hash },
            ),
            None => None,
        }
    }

    /// What a closed inbound link takes with it: its backchannels, the unanswered
    /// sends over it, and the sends over it that wait for their proofs. Everything
    /// else stays, in its order.
    pub open spec fn fail_backchannel_link(self, link_id: [u8; 16], reason: Seq<char>) -> Round {
        let lost_starts = self.starts.filter(|start: StartView| start.link_id == link_id);
        let lost_waits = self.waits.filter(
            |entry: (BackchannelProofKey, ProofWaitView)| entry.1.link_id == link_id,
        );
        Round {
            state: ManagerState {
                backchannel_links: self.backchannel_links.remove_keys(
                    destinations_of(self.backchannel_links, link_id),
                ),
                starts: self.starts.filter(|start: StartView| start.link_id != link_id),
                waits: self.waits.filter(
                    |entry: (BackchannelProofKey, ProofWaitView)| entry.1.link_id != link_id,
                ),
                events: self.events + lost_starts.map_values(
                    |start: StartView| start.failed_event(reason),
                ) + lost_waits.map_values(
                    |entry: (BackchannelProofKey, ProofWaitView)| entry.1.failed_event(reason),
                ),
                ..self
            },
            results: lost_starts.map_values(|start: StartView| start.failed_result(reason))
                + lost_waits.map_values(
                |entry: (BackchannelProofKey, ProofWaitView)| entry.1.failed_result(reason),
            ),
        }
    }

    /// The first session that holds a message with this hash.
    pub open spec fn session_holding(self, msg_hash: [u8; 32]) -> Option<int> {
        first_where(self.sessions, holding(msg_hash))
    }

    /// The first unanswered send of a message with this hash.
    pub open spec fn start_holding(self, msg_hash: [u8; 32]) -> Option<int> {
        first_where(self.starts, start_of(msg_hash))
    }

    /// The first send of a message with this hash that waits for its proof.
    pub open spec fn wait_holding(self, msg_hash: [u8; 32]) -> Option<int> {
        first_where(self.waits, wait_of(msg_hash))
    }

    /// The state without a session, and without the cache entry that leads to it.
    pub open spec fn without_session(self, i: int) -> Self {
        let (link_id, session) = self.sessions[i];
        ManagerState {
            sessions: self.sessions.remove(i),
            direct_links: if self.direct_links.contains_key(session.dest_hash)
                && self.direct_links[session.dest_hash] == link_id {
                self.direct_links.remove(session.dest_hash)
            } else {
                self.direct_links
            },
            ..self
        }
    }

    /// The state in which a waiting message of a session is gone.
    pub open spec fn without_queued(self, i: int, at: int) -> Self {
        let (link_id, session) = self.sessions[i];
        ManagerState {
            sessions: self.sessions.update(
                i,
                (link_id, SessionView { queue: session.queue.remove(at), ..session }),
            ),
            ..self
        }
    }

    /// Fails the delivery of a message. Where it is the current one of a session, the
    /// session fails with everything that waits; where it waits, only it fails; where
    /// it is on a backchannel, the backchannel is given up.
    pub open spec fn fail_by_hash(self, msg_hash: [u8; 32], reason: Seq<char>) -> Round {
        match (
            self.session_holding(msg_hash),
            self.start_holding(msg_hash),
            self.wait_holding(msg_hash),
        ) {
            (Some(i), _, _) => {
                let (link_id, session) = self.sessions[i];
                if session.msg_hash == Some(msg_hash) {
                    Round {
                        state: ManagerState {
                            events: self.events + session.failed_events(link_id, reason),
                            ..self.without_session(i)
                        },
                        results: session.failed_results(link_id, reason),
                    }
                } else {
                    let at = queued_index(session.queue, msg_hash)->0;
                    let queued = session.queue[at];
                    Round {
                        state: ManagerState {
                            events: self.events.push(
                                queued.failed_event(link_id, session.dest_hash, reason),
                            ),
                            ..self.without_queued(i, at)
                        },
                        results: seq![queued.failed_result(link_id, session.dest_hash, reason)],
                    }
                }
            },
            (None, Some(i), _) => (ManagerState {
                starts: self.starts.remove(i),
                ..self
            }).fail_start(self.starts[i], reason),
            (None, None, Some(i)) => (ManagerState {
                waits: self.waits.remove(i),
                ..self
            }).fail_wait(self.waits[i].1, reason),
            (None, None, None) => Round { state: self, results: Seq::empty() },
        }
    }

    /// Whether some delivery of a message with this hash can be cancelled.
    pub open spec fn holds(self, msg_hash: [u8; 32]) -> bool {
        self.session_holding(msg_hash) is Some || self.start_holding(msg_hash) is Some
            || self.wait_holding(msg_hash) is Some
    }

    /// Cancels the delivery of a message without telling of it. Where it is the
    /// current one of a session, the link is closed and the session is gone with
    /// everything that waits; where it waits, only it is gone.
    pub open spec fn cancel_by_hash(self, msg_hash: [u8; 32]) -> Self {
        match (
            self.session_holding(msg_hash),
            self.start_holding(msg_hash),
            self.wait_holding(msg_hash),
        ) {
            (Some(i), _, _) => {
                let (link_id, session) = self.sessions[i];
                if session.msg_hash == Some(msg_hash) {
                    ManagerState {
                        commands: self.commands.push(CommandView::Close { link_id }).push(
                            CommandView::Close { link_id },
                        ),
                        ..self.without_session(i)
                    }
                } else {
                    self.without_queued(i, queued_index(session.queue, msg_hash)->0)
                }
            },
            (None, Some(i), _) => ManagerState { starts: self.starts.remove(i), ..self },
            (None, None, Some(i)) => ManagerState { waits: self.waits.remove(i), ..self },
            (None, None, None) => self,
        }
    }

    /// The first session on which a message with this hash is under way or waits.
    pub open spec fn session_carrying(self, msg_hash: [u8; 32]) -> Option<int> {
        first_where(self.sessions, carrying(msg_hash))
    }

    /// What can be said of a message that is being delivered.
    pub open spec fn message_snapshot(self, msg_hash: [u8; 32]) -> Option<MessageSnapshotView> {
        match (
            self.session_carrying(msg_hash),
            self.start_holding(msg_hash),
            self.wait_holding(msg_hash),
        ) {
            (Some(i), _, _) => {
                let (link_id, session) = self.sessions[i];
                let current = session.state !is Idle && session.msg_hash == Some(msg_hash);
                let message = if current {
                    session.message
                } else {
                    session.queue[queued_index(session.queue, msg_hash)->0].message
                };
                Some(
                    MessageSnapshotView {
                        link_id,
                        dest_hash: session.dest_hash,
                        link_state: session.link_state,
                        delivery_state: session.state,
                        representation: message.representation,
                        progress: message.progress,
                        queued: !current,
                        queued_deliveries: session.queue.len(),
                        in_flight_deliveries: session.owned(),
                    },
                )
            },
            (None, Some(i), _) => Some(
                MessageSnapshotView {
                    link_id: self.starts[i].link_id,
                    dest_hash: self.starts[i].dest_hash,
                    link_state: LinkState::Active,
                    delivery_state: DeliveryState::Transferring,
                    representation: DeliveryRepresentation::Unknown,
                    progress: self.starts[i].message.progress,
                    queued: true,
                    queued_deliveries: 1,
                    in_flight_deliveries: 0,
                },
            ),
            (None, None, Some(i)) => Some(
                MessageSnapshotView {
                    link_id: self.waits[i].0.link(),
                    dest_hash: self.waits[i].1.dest_hash,
                    link_state: LinkState::Active,
                    delivery_state: DeliveryState::AwaitingProof,
                    representation: self.waits[i].1.representation,
                    progress: self.waits[i].1.message.progress,
                    queued: false,
                    queued_deliveries: 0,
                    in_flight_deliveries: 1,
                },
            ),
            (None, None, None) => None,
        }
    }

    /// Whether a message to a destination would find a link, if the cached link has
    /// been idle for so long.
    pub open spec fn link_available(self, dest_hash: [u8; 16], idle: u128) -> bool {
        ||| match self.cached_session(dest_hash) {
            Some(session) => session.reusable && session.link_state !is Closed
                && !session.idle_expired(idle),
            None => false,
        }
        ||| self.backchannel_links.contains_key(dest_hash)
    }

    /// What can be said of the cached link to a destination.
    pub open spec fn link_snapshot(self, dest_hash: [u8; 16], idle: u128) -> Option<
        LinkSnapshotView,
    > {
        match self.cached_session(dest_hash) {
            Some(session) => Some(
                LinkSnapshotView {
                    link_id: self.direct_links[dest_hash],
                    dest_hash,
                    link_state: session.link_state,
                    delivery_state: session.state,
                    idle_expired: session.idle_expired(idle),
                    queued_deliveries: session.queue.len(),
                    in_flight_deliveries: session.in_flight(),
                },
            ),
            None => None,
        }
    }

    /// What can be said of the backchannel to a destination.
    pub open spec fn backchannel_snapshot(self, dest_hash: [u8; 16]) -> Option<
        BackchannelSnapshotView,
    > {
        if self.backchannel_links.contains_key(dest_hash) {
            Some(
                BackchannelSnapshotView {
                    link_id: self.backchannel_links[dest_hash],
                    dest_hash,
                    queued_deliveries: starts_to(self.starts, dest_hash),
                    in_flight_deliveries: waits_to(self.waits, dest_hash),
                },
            )
        } else {
            None
        }
    }

    /// The aggregate numbers.
    pub open spec fn stats(self) -> StatsView {
        StatsView {
            sessions: self.sessions.len(),
            direct_sessions: reusable_among(self.sessions),
            one_shot_sessions: one_shot_among(self.sessions),
            backchannel_sessions: self.backchannel_links.dom().len(),
            establishing_direct_sessions: establishing_among(self.sessions),
            active_direct_sessions: active_among(self.sessions),
            idle_direct_sessions: idle_among(self.sessions),
            queued_deliveries: queued_by(self.sessions) + self.starts.len(),
            in_flight_deliveries: in_flight_by(self.sessions) + self.waits.len(),
            pending_backchannel_starts: self.starts.len(),
            pending_backchannel_deliveries: self.waits.len(),
        }
    }
}

/// What a session has that holds a message with this hash.
pub open spec fn holding(msg_hash: [u8; 32]) -> spec_fn(([u8; 16], SessionView)) -> bool {
    |entry: ([u8; 16], SessionView)| entry.1.holds(msg_hash)
}

/// What a session has on which a message with this hash is under way or waits.
pub open spec fn carrying(msg_hash: [u8; 32]) -> spec_fn(([u8; 16], SessionView)) -> bool {
    |entry: ([u8; 16], SessionView)| entry.1.carries(msg_hash)
}

/// What an unanswered send of a message with this hash has.
pub open spec fn start_of(msg_hash: [u8; 32]) -> spec_fn(StartView) -> bool {
    |start: StartView| start.message.hash == Some(msg_hash)
}

/// What a send of a message with this hash has that waits for its proof.
pub open spec fn wait_of(msg_hash: [u8; 32]) -> spec_fn(
    (BackchannelProofKey, ProofWaitView),
) -> bool {
    |entry: (BackchannelProofKey, ProofWaitView)| entry.1.message.hash == Some(msg_hash)
}

/// How many sessions keep their link for further messages.
pub open spec fn reusable_among(sessions: Seq<([u8; 16], SessionView)>) -> nat {
    count_where(sessions, |entry: ([u8; 16], SessionView)| entry.1.reusable)
}

/// How many sessions use their link once.
pub open spec fn one_shot_among(sessions: Seq<([u8; 16], SessionView)>) -> nat {
    count_where(sessions, |entry: ([u8; 16], SessionView)| !entry.1.reusable)
}

/// How many reusable links are being established.
pub open spec fn establishing_among(sessions: Seq<([u8; 16], SessionView)>) -> nat {
    count_where(
        sessions,
        |entry: ([u8; 16], SessionView)| entry.1.reusable && entry.1.state is Establishing,
    )
}

/// How many reusable links carry data.
pub open spec fn active_among(sessions: Seq<([u8; 16], SessionView)>) -> nat {
    count_where(
        sessions,
        |entry: ([u8; 16], SessionView)| entry.1.reusable && entry.1.link_state is Active,
    )
}

/// How many reusable links are idle.
pub open spec fn idle_among(sessions: Seq<([u8; 16], SessionView)>) -> nat {
    count_where(
        sessions,
        |entry: ([u8; 16], SessionView)| entry.1.reusable && entry.1.state is Idle,
    )
}

/// How many deliveries wait on sessions.
pub open spec fn queued_by(sessions: Seq<([u8; 16], SessionView)>) -> nat {
    total(sessions, |entry: ([u8; 16], SessionView)| entry.1.queue.len())
}

/// How many deliveries are under way on sessions.
pub open spec fn in_flight_by(sessions: Seq<([u8; 16], SessionView)>) -> nat {
    total(sessions, |entry: ([u8; 16], SessionView)| entry.1.in_flight())
}

/// How many unanswered sends go to a destination.
pub open spec fn starts_to(starts: Seq<StartView>, dest_hash: [u8; 16]) -> nat {
    count_where(starts, |start: StartView| start.dest_hash == dest_hash)
}

/// How many sends to a destination wait for their proofs.
pub open spec fn waits_to(
    waits: Seq<(BackchannelProofKey, ProofWaitView)>,
    dest_hash: [u8; 16],
) -> nat {
    count_where(
        waits,
        |entry: (BackchannelProofKey, ProofWaitView)| entry.1.dest_hash == dest_hash,
    )
}

} // verus!
