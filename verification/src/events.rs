//! What the delivery logic tells the application: progress events and the
//! results of deliveries that ended.

use vstd::prelude::*;

use crate::message::{LxMessage, LxMessageView};
use crate::types::{text_of, DeliveryRepresentation, DeliveryState, LinkState, Progress};

verus! {

/// Which link-delivery path emitted an event.
#[derive(Debug, Clone, Copy, PartialEq, Eq, Structural)]
pub enum LxmfDeliveryEventMethod {
    Direct,
    PropagationDeposit,
}

/// Semantic delivery stages.
#[derive(Debug, Clone, Copy, PartialEq, Eq, Structural)]
pub enum LxmfDeliveryEventKind {
    LinkEstablishing,
    LinkEstablished,
    DirectLinkPending,
    DirectLinkReused,
    BackchannelLinkReused,
    TransferStarted,
    TransferProgress,
    AwaitingProof,
    Delivered,
    Rejected,
    Failed,
}

/// Delivery progress event for embedders and user interfaces.
#[derive(Debug, Clone, PartialEq)]
pub struct LxmfDeliveryEvent {
    pub kind: LxmfDeliveryEventKind,
    pub method: LxmfDeliveryEventMethod,
    pub link_id: [u8; 16],
    pub dest_hash: [u8; 16],
    pub msg_hash: Option<[u8; 32]>,
    pub attempts: u32,
    pub progress: Option<Progress>,
    pub representation: DeliveryRepresentation,
    pub link_state: LinkState,
    pub delivery_state: DeliveryState,
    pub queued_deliveries: usize,
    pub in_flight_deliveries: usize,
    pub reason: Option<String>,
}

/// The mathematical content of an [`LxmfDeliveryEvent`].
#[verifier::ext_equal]
pub struct EventView {
    pub kind: LxmfDeliveryEventKind,
    pub method: LxmfDeliveryEventMethod,
    pub link_id: [u8; 16],
    pub dest_hash: [u8; 16],
    pub msg_hash: Option<[u8; 32]>,
    pub attempts: u32,
    pub progress: Option<Progress>,
    pub representation: DeliveryRepresentation,
    pub link_state: LinkState,
    pub delivery_state: DeliveryState,
    pub queued_deliveries: nat,
    pub in_flight_deliveries: nat,
    pub reason: Option<Seq<char>>,
}

impl View for LxmfDeliveryEvent {
    type V = EventView;

    open spec fn view(&self) -> EventView {
        EventView {
            kind: self.kind,
            method: self.method,
            link_id: self.link_id,
            dest_hash: self.dest_hash,
            msg_hash: self.msg_hash,
            attempts: self.attempts,
            progress: self.progress,
            representation: self.representation,
            link_state: self.link_state,
            delivery_state: self.delivery_state,
            queued_deliveries: self.queued_deliveries as nat,
            in_flight_deliveries: self.in_flight_deliveries as nat,
            reason: text_of(self.reason),
        }
    }
}

impl EventView {
    /// Whether the event says that a delivery has ended.
    pub open spec fn is_terminal(self) -> bool {
        self.kind is Delivered || self.kind is Rejected || self.kind is Failed
    }
}

/// Result of a delivery that ended.
#[derive(Debug)]
pub enum DeliveryResult {
    Complete { link_id: [u8; 16], msg_hash: Option<[u8; 32]> },
    Rejected {
        link_id: [u8; 16],
        msg_hash: Option<[u8; 32]>,
        dest_hash: [u8; 16],
        message: LxMessage,
        reason: String,
    },
    Failed {
        link_id: [u8; 16],
        msg_hash: Option<[u8; 32]>,
        dest_hash: [u8; 16],
        message: LxMessage,
        reason: String,
    },
}

/// The mathematical content of a [`DeliveryResult`].
#[verifier::ext_equal]
pub enum ResultView {
    Complete { link_id: [u8; 16], msg_hash: Option<[u8; 32]> },
    Rejected {
        link_id: [u8; 16],
        msg_hash: Option<[u8; 32]>,
        dest_hash: [u8; 16],
        message: LxMessageView,
        reason: Seq<char>,
    },
    Failed {
        link_id: [u8; 16],
        msg_hash: Option<[u8; 32]>,
        dest_hash: [u8; 16],
        message: LxMessageView,
        reason: Seq<char>,
    },
}

impl ResultView {
    /// The hash of the message that a result is about.
    pub open spec fn hash(self) -> Option<[u8; 32]> {
        match self {
            ResultView::Complete { msg_hash, .. } => msg_hash,
            ResultView::Rejected { msg_hash, .. } => msg_hash,
            ResultView::Failed { msg_hash, .. } => msg_hash,
        }
    }

    /// The link that a result is about.
    pub open spec fn link(self) -> [u8; 16] {
        match self {
            ResultView::Complete { link_id, .. } => link_id,
            ResultView::Rejected { link_id, .. } => link_id,
            ResultView::Failed { link_id, .. } => link_id,
        }
    }
}

impl View for DeliveryResult {
    type V = ResultView;

    open spec fn view(&self) -> ResultView {
        match self {
            DeliveryResult::Complete { link_id, msg_hash } => ResultView::Complete {
                link_id: *link_id,
                msg_hash: *msg_hash,
            },
            DeliveryResult::Rejected { link_id, msg_hash, dest_hash, message, reason } => {
                ResultView::Rejected {
                    link_id: *link_id,
                    msg_hash: *msg_hash,
                    dest_hash: *dest_hash,
                    message: message@,
                    reason: reason@,
                }
            },
            DeliveryResult::Failed { link_id, msg_hash, dest_hash, message, reason } => {
                ResultView::Failed {
                    link_id: *link_id,
                    msg_hash: *msg_hash,
                    dest_hash: *dest_hash,
                    message: message@,
                    reason: reason@,
                }
            },
        }
    }
}

/// The contents of a list of events.
pub open spec fn event_views(events: Seq<LxmfDeliveryEvent>) -> Seq<EventView> {
    events.map_values(|event: LxmfDeliveryEvent| event@)
}

/// The contents of a list of results.
pub open spec fn result_views(results: Seq<DeliveryResult>) -> Seq<ResultView> {
    results.map_values(|result: DeliveryResult| result@)
}

/// A list of events grows by one.
pub proof fn lemma_event_views_push(events: Seq<LxmfDeliveryEvent>, event: LxmfDeliveryEvent)
    ensures
        event_views(events.push(event)) == event_views(events).push(event@),
{
    assert(event_views(events.push(event)) =~= event_views(events).push(event@));
}

/// A list of results grows by one.
pub proof fn lemma_result_views_push(results: Seq<DeliveryResult>, result: DeliveryResult)
    ensures
        result_views(results.push(result)) == result_views(results).push(result@),
{
    assert(result_views(results.push(result)) =~= result_views(results).push(result@));
}

} // verus!
