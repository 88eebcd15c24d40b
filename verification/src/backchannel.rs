//! Sends over inbound links that the embedding runtime owns: the commands to it,
//! its answers, and the sends that wait for them.

use std::time::Instant;
use tokio::sync::oneshot;
use vstd::prelude::*;

use crate::events::{
    DeliveryResult, EventView, LxmfDeliveryEvent, LxmfDeliveryEventKind, LxmfDeliveryEventMethod,
    ResultView,
};
use crate::keyed::Key;
use crate::message::{LxMessage, LxMessageView};
use crate::types::{
    same_bytes, text_of, DeliveryRepresentation, DeliveryState, LinkState, Progress,
};

verus! {

/// How long the runtime may take to answer a send command, in nanoseconds.
pub const BACKCHANNEL_SEND_COMMAND_TIMEOUT: u128 = 10_000_000_000;

/// How long a send over a backchannel may wait for its proof, in nanoseconds.
pub const BACKCHANNEL_DELIVERY_TIMEOUT: u128 = 360_000_000_000;

/// A proof-tracked send over an already-authenticated inbound delivery link.
#[derive(Debug, Clone, Copy, PartialEq, Eq)]
pub enum BackchannelSendReceipt {
    Packet { link_id: [u8; 16], packet_hash: [u8; 32] },
    Resource { link_id: [u8; 16], resource_hash: [u8; 32] },
}

/// Why the runtime could not send over an inbound link.
#[derive(Debug, Clone, PartialEq, Eq)]
pub enum BackchannelSendError {
    LinkNotFound,
    LinkNotActive,
    NoSessionKeys,
    TransportUnavailable,
    ResourceStartFailed,
    Other(String),
}

impl BackchannelSendError {
    /// The text of the error.
    pub open spec fn text(self) -> Seq<char> {
        match self {
            BackchannelSendError::LinkNotFound => "link not found"@,
            BackchannelSendError::LinkNotActive => "link is not active"@,
            BackchannelSendError::NoSessionKeys => "link session keys are unavailable"@,
            BackchannelSendError::TransportUnavailable => "transport channel is full or closed"@,
            BackchannelSendError::ResourceStartFailed => "resource transfer could not be started"@,
            BackchannelSendError::Other(reason) => reason@,
        }
    }

    /// The error as it is shown to people.
    pub fn description(&self) -> (text: String)
        ensures
            text@ == self.text(),
    {
        match self {
            BackchannelSendError::LinkNotFound => "link not found".to_owned(),
            BackchannelSendError::LinkNotActive => "link is not active".to_owned(),
            BackchannelSendError::NoSessionKeys => "link session keys are unavailable".to_owned(),
            BackchannelSendError::TransportUnavailable => {
                "transport channel is full or closed".to_owned()
            },
            BackchannelSendError::ResourceStartFailed => {
                "resource transfer could not be started".to_owned()
            },
            BackchannelSendError::Other(reason) => reason.clone(),
        }
    }
}

/// The runtime's answer to a send command.
pub type BackchannelReply = Result<BackchannelSendReceipt, BackchannelSendError>;

/// Command bridge used by embedders to send an LXMF payload over an inbound
/// authenticated link that is owned by their Reticulum runtime.
pub struct BackchannelSendCommand {
    pub link_id: [u8; 16],
    pub payload: Vec<u8>,
    pub auto_compress: bool,
    pub result_tx: oneshot::Sender<BackchannelReply>,
}

/// What became of a command that was offered to the runtime.
#[derive(Debug, Clone, Copy, PartialEq, Eq, Structural)]
pub enum SendOutcome {
    Sent,
    Full,
    Closed,
}

/// Why no backchannel delivery could be started.
#[derive(Debug, Clone, Copy, PartialEq, Eq, Structural)]
pub enum BackchannelStartError {
    NoBackchannel,
    SenderUnavailable,
    CommandFull,
    CommandClosed,
    PackFailed,
}

impl BackchannelStartError {
    /// The text of the error.
    pub open spec fn text(self) -> Seq<char> {
        match self {
            BackchannelStartError::NoBackchannel => "backchannel link not found"@,
            BackchannelStartError::SenderUnavailable => "backchannel sender unavailable"@,
            BackchannelStartError::CommandFull => "backchannel command channel full"@,
            BackchannelStartError::CommandClosed => "backchannel command channel closed"@,
            BackchannelStartError::PackFailed => "failed to pack LXMF payload"@,
        }
    }

    /// The error as it is shown to people.
    pub fn description(&self) -> (text: String)
        ensures
            text@ == self.text(),
    {
        match self {
            BackchannelStartError::NoBackchannel => "backchannel link not found".to_owned(),
            BackchannelStartError::SenderUnavailable => "backchannel sender unavailable".to_owned(),
            BackchannelStartError::CommandFull => "backchannel command channel full".to_owned(),
            BackchannelStartError::CommandClosed => "backchannel command channel closed".to_owned(),
            BackchannelStartError::PackFailed => "failed to pack LXMF payload".to_owned(),
        }
    }
}

/// A backchannel delivery that did not start, with the message handed back.
#[derive(Debug)]
pub struct BackchannelStartFailure {
    pub error: BackchannelStartError,
    pub message: Box<LxMessage>,
}

impl BackchannelStartFailure {
    /// The failure as it is shown to people: the text of its error.
    pub fn description(&self) -> (text: String)
        ensures
            text@ == self.error.text(),
    {
        self.error.description()
    }
}

/// Start result for a reusable inbound backchannel link.
#[derive(Debug, Clone, Copy, PartialEq, Eq)]
pub struct BackchannelStartReport {
    pub link_id: [u8; 16],
    pub dest_hash: [u8; 16],
    pub queued_deliveries: usize,
    pub in_flight_deliveries: usize,
}

/// What a proof names: a packet or a resource that was sent over a link.
#[derive(Debug, Clone, Copy, PartialEq, Eq)]
pub enum BackchannelProofKey {
    Packet([u8; 16], [u8; 32]),
    Resource([u8; 16], [u8; 32]),
}

impl Key for BackchannelProofKey {
    fn same(&self, other: &Self) -> (same: bool) {
        match (self, other) {
            (BackchannelProofKey::Packet(a, x), BackchannelProofKey::Packet(b, y)) => {
                same_bytes(a, b) && same_bytes(x, y)
            },
            (BackchannelProofKey::Resource(a, x), BackchannelProofKey::Resource(b, y)) => {
                same_bytes(a, b) && same_bytes(x, y)
            },
            _ => false,
        }
    }
}

impl BackchannelProofKey {
    /// The link that the proof comes over.
    pub open spec fn link(self) -> [u8; 16] {
        match self {
            BackchannelProofKey::Packet(link_id, _) => link_id,
            BackchannelProofKey::Resource(link_id, _) => link_id,
        }
    }

    /// The link that the proof comes over.
    pub fn link_id(&self) -> (link_id: [u8; 16])
        ensures
            link_id == self.link(),
    {
        match self {
            BackchannelProofKey::Packet(link_id, _) => *link_id,
            BackchannelProofKey::Resource(link_id, _) => *link_id,
        }
    }
}

/// A send command that the runtime has not answered.
pub struct PendingBackchannelStart {
    pub receiver: oneshot::Receiver<BackchannelReply>,
    pub message: LxMessage,
    pub dest_hash: [u8; 16],
    pub link_id: [u8; 16],
    pub requested_at: Instant,
}

/// The mathematical content of a [`PendingBackchannelStart`].
#[verifier::ext_equal]
pub struct StartView {
    pub receiver: oneshot::Receiver<BackchannelReply>,
    pub message: LxMessageView,
    pub dest_hash: [u8; 16],
    pub link_id: [u8; 16],
    pub requested_at: Instant,
}

impl View for PendingBackchannelStart {
    type V = StartView;

    open spec fn view(&self) -> StartView {
        StartView {
            receiver: self.receiver,
            message: self.message@,
            dest_hash: self.dest_hash,
            link_id: self.link_id,
            requested_at: self.requested_at,
        }
    }
}

/// A send over a backchannel that waits for its proof.
pub struct PendingBackchannelDelivery {
    pub message: LxMessage,
    pub dest_hash: [u8; 16],
    pub link_id: [u8; 16],
    pub representation: DeliveryRepresentation,
    pub started_at: Instant,
}

/// The mathematical content of a [`PendingBackchannelDelivery`].
#[verifier::ext_equal]
pub struct ProofWaitView {
    pub message: LxMessageView,
    pub dest_hash: [u8; 16],
    pub link_id: [u8; 16],
    pub representation: DeliveryRepresentation,
    pub started_at: Instant,
}

impl View for PendingBackchannelDelivery {
    type V = ProofWaitView;

    open spec fn view(&self) -> ProofWaitView {
        ProofWaitView {
            message: self.message@,
            dest_hash: self.dest_hash,
            link_id: self.link_id,
            representation: self.representation,
            started_at: self.started_at,
        }
    }
}

/// The contents of a list of unanswered commands.
pub open spec fn start_views(starts: Seq<PendingBackchannelStart>) -> Seq<StartView> {
    starts.map_values(|start: PendingBackchannelStart| start@)
}

/// The event that tells of a stage of a backchannel delivery. One delivery is in
/// flight while it is being transferred or awaits its proof.
pub open spec fn backchannel_event(
    kind: LxmfDeliveryEventKind,
    message: LxMessageView,
    dest_hash: [u8; 16],
    link_id: [u8; 16],
    representation: DeliveryRepresentation,
    progress: Option<Progress>,
    reason: Option<Seq<char>>,
    link_state: LinkState,
    delivery_state: DeliveryState,
) -> EventView {
    EventView {
        kind,
        method: LxmfDeliveryEventMethod::Direct,
        link_id,
        dest_hash,
        msg_hash: message.hash,
        attempts: message.delivery_attempts,
        progress,
        representation,
        link_state,
        delivery_state,
        queued_deliveries: 0,
        in_flight_deliveries: if delivery_state is Transferring || delivery_state is AwaitingProof {
            1
        } else {
            0
        },
        reason,
    }
}

/// What an event of a backchannel delivery is made of.
pub struct BackchannelDeliveryEventInput<'a> {
    pub kind: LxmfDeliveryEventKind,
    pub message: &'a LxMessage,
    pub dest_hash: [u8; 16],
    pub link_id: [u8; 16],
    pub representation: DeliveryRepresentation,
    pub progress: Option<Progress>,
    pub reason: Option<String>,
    pub link_state: LinkState,
    pub delivery_state: DeliveryState,
}

/// Makes the event that tells of a stage of a backchannel delivery.
pub fn backchannel_delivery_event(input: BackchannelDeliveryEventInput<'_>) -> (event:
    LxmfDeliveryEvent)
    ensures
        event@ == backchannel_event(
            input.kind,
            input.message@,
            input.dest_hash,
            input.link_id,
            input.representation,
            input.progress,
            text_of(input.reason),
            input.link_state,
            input.delivery_state,
        ),
{
    let in_flight: usize = match input.delivery_state {
        DeliveryState::Transferring | DeliveryState::AwaitingProof => 1,
        _ => 0,
    };
    LxmfDeliveryEvent {
        kind: input.kind,
        method: LxmfDeliveryEventMethod::Direct,
        link_id: input.link_id,
        dest_hash: input.dest_hash,
        msg_hash: input.message.hash,
        attempts: input.message.delivery_attempts,
        progress: input.progress,
        representation: input.representation,
        link_state: input.link_state,
        delivery_state: input.delivery_state,
        queued_deliveries: 0,
        in_flight_deliveries: in_flight,
        reason: input.reason,
    }
}

impl StartView {
    /// The event that tells that the send failed before it was under way.
    pub open spec fn failed_event(self, reason: Seq<char>) -> EventView {
        backchannel_event(
            LxmfDeliveryEventKind::Failed,
            self.message,
            self.dest_hash,
            self.link_id,
            DeliveryRepresentation::Unknown,
            Some(self.message.progress),
            Some(reason),
            LinkState::Closed,
            DeliveryState::Failed,
        )
    }

    /// The result that hands the message of a failed send back.
    pub open spec fn failed_result(self, reason: Seq<char>) -> ResultView {
        ResultView::Failed {
            link_id: self.link_id,
            msg_hash: self.message.hash,
            dest_hash: self.dest_hash,
            message: self.message,
            reason,
        }
    }
}

/// Ends an unanswered send as failed: the event and the result.
pub fn fail_backchannel_start(start: PendingBackchannelStart, reason: String) -> (ended: (
    LxmfDeliveryEvent,
    DeliveryResult,
))
    ensures
        ended.0@ == start@.failed_event(reason@),
        ended.1@ == start@.failed_result(reason@),
{
    let event = backchannel_delivery_event(
        BackchannelDeliveryEventInput {
            kind: LxmfDeliveryEventKind::Failed,
            message: &start.message,
            dest_hash: start.dest_hash,
            link_id: start.link_id,
            representation: DeliveryRepresentation::Unknown,
            progress: Some(start.message.progress),
            reason: Some(reason.clone()),
            link_state: LinkState::Closed,
            delivery_state: DeliveryState::Failed,
        },
    );
    let result = DeliveryResult::Failed {
        link_id: start.link_id,
        msg_hash: start.message.hash,
        dest_hash: start.dest_hash,
        message: start.message,
        reason,
    };
    (event, result)
}

impl ProofWaitView {
    /// The event that tells that the delivery failed while it awaited its proof.
    pub open spec fn failed_event(self, reason: Seq<char>) -> EventView {
        backchannel_event(
            LxmfDeliveryEventKind::Failed,
            self.message,
            self.dest_hash,
            self.link_id,
            self.representation,
            Some(self.message.progress),
            Some(reason),
            LinkState::Closed,
            DeliveryState::Failed,
        )
    }

    /// The result that hands the message of a failed delivery back.
    pub open spec fn failed_result(self, reason: Seq<char>) -> ResultView {
        ResultView::Failed {
            link_id: self.link_id,
            msg_hash: self.message.hash,
            dest_hash: self.dest_hash,
            message: self.message,
            reason,
        }
    }
}

/// Ends a delivery that awaits its proof as failed: the event and the result.
pub fn fail_backchannel_delivery(delivery: PendingBackchannelDelivery, reason: String) -> (ended: (
    LxmfDeliveryEvent,
    DeliveryResult,
))
    ensures
        ended.0@ == delivery@.failed_event(reason@),
        ended.1@ == delivery@.failed_result(reason@),
{
    let event = backchannel_delivery_event(
        BackchannelDeliveryEventInput {
            kind: LxmfDeliveryEventKind::Failed,
            message: &delivery.message,
            dest_hash: delivery.dest_hash,
            link_id: delivery.link_id,
            representation: delivery.representation,
            progress: Some(delivery.message.progress),
            reason: Some(reason.clone()),
            link_state: LinkState::Closed,
            delivery_state: DeliveryState::Failed,
        },
    );
    let result = DeliveryResult::Failed {
        link_id: delivery.link_id,
        msg_hash: delivery.message.hash,
        dest_hash: delivery.dest_hash,
        message: delivery.message,
        reason,
    };
    (event, result)
}

} // verus!
