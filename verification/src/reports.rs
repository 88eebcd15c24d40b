//! What the delivery manager answers: start reports, requests to open links, and
//! snapshots of its state.

use tokio::sync::mpsc;
use vstd::prelude::*;

use crate::message::LxMessage;
use crate::model::{
    BackchannelSnapshotView, DirectLinkStartKind, LinkSnapshotView, MessageSnapshotView,
    OpenRequestView, StartReportView, StatsView,
};
use crate::types::{DeliveryRepresentation, DeliveryState, LinkState, Progress};

verus! {

/// Start result with enough detail for callers to surface Direct delivery stages
/// without knowing the policy of the manager.
#[derive(Debug, Clone, Copy, PartialEq, Eq)]
pub struct DirectLinkStartReport {
    pub link_id: [u8; 16],
    pub dest_hash: [u8; 16],
    pub kind: DirectLinkStartKind,
    pub link_state: LinkState,
    pub delivery_state: DeliveryState,
    pub queued_deliveries: usize,
    pub in_flight_deliveries: usize,
}

impl View for DirectLinkStartReport {
    type V = StartReportView;

    open spec fn view(&self) -> StartReportView {
        StartReportView {
            link_id: self.link_id,
            dest_hash: self.dest_hash,
            kind: self.kind,
            link_state: self.link_state,
            delivery_state: self.delivery_state,
            queued_deliveries: self.queued_deliveries as nat,
            in_flight_deliveries: self.in_flight_deliveries as nat,
        }
    }
}

/// A link that the runtime is asked to open, and the message that is to go over it.
pub struct LinkOpenRequest {
    pub message: LxMessage,
    pub dest_hash: [u8; 16],
    pub hops: u8,
    /// The public key of the destination.
    pub public_key: [u8; 64],
    /// What goes over the link for the message.
    pub payload: Vec<u8>,
    /// Whether the payload may be compressed.
    pub auto_compress: bool,
    /// Whether the link stays open for further messages.
    pub reusable: bool,
    /// How long establishing the link may take, in nanoseconds.
    pub establishment_timeout: u128,
    /// How long the delivery may take, in nanoseconds.
    pub timeout: u128,
    /// Where payloads go that arrive over the link.
    pub inbound_packet_tx: Option<mpsc::Sender<(Vec<u8>, [u8; 16])>>,
}

impl View for LinkOpenRequest {
    type V = OpenRequestView;

    open spec fn view(&self) -> OpenRequestView {
        OpenRequestView {
            message: self.message@,
            dest_hash: self.dest_hash,
            hops: self.hops,
            public_key: self.public_key,
            payload: self.payload@,
            auto_compress: self.auto_compress,
            reusable: self.reusable,
            establishment_timeout: self.establishment_timeout,
            timeout: self.timeout,
            inbound_packet_tx: self.inbound_packet_tx,
        }
    }
}

/// How a Direct delivery starts, with the report of the link that took it.
pub enum DirectStart {
    /// A cached link took the message.
    Attached(DirectLinkStartReport),
    /// A link has to be opened for the message.
    OpenLink(LinkOpenRequest),
}

/// How a delivery starts.
pub enum DeliveryStart {
    /// The link with this identifier took the message.
    Attached([u8; 16]),
    /// A link has to be opened for the message.
    OpenLink(LinkOpenRequest),
}

/// Snapshot of a reusable Direct link session.
#[derive(Debug, Clone, Copy, PartialEq, Eq)]
pub struct DirectLinkSnapshot {
    pub link_id: [u8; 16],
    pub dest_hash: [u8; 16],
    pub link_state: LinkState,
    pub delivery_state: DeliveryState,
    pub idle_expired: bool,
    pub queued_deliveries: usize,
    pub in_flight_deliveries: usize,
}

impl View for DirectLinkSnapshot {
    type V = LinkSnapshotView;

    open spec fn view(&self) -> LinkSnapshotView {
        LinkSnapshotView {
            link_id: self.link_id,
            dest_hash: self.dest_hash,
            link_state: self.link_state,
            delivery_state: self.delivery_state,
            idle_expired: self.idle_expired,
            queued_deliveries: self.queued_deliveries as nat,
            in_flight_deliveries: self.in_flight_deliveries as nat,
        }
    }
}

/// Snapshot of a message currently owned by link delivery.
#[derive(Debug, Clone, Copy, PartialEq)]
pub struct MessageDeliverySnapshot {
    pub link_id: [u8; 16],
    pub dest_hash: [u8; 16],
    pub link_state: LinkState,
    pub delivery_state: DeliveryState,
    pub representation: DeliveryRepresentation,
    pub progress: Progress,
    pub queued: bool,
    pub queued_deliveries: usize,
    pub in_flight_deliveries: usize,
}

impl View for MessageDeliverySnapshot {
    type V = MessageSnapshotView;

    open spec fn view(&self) -> MessageSnapshotView {
        MessageSnapshotView {
            link_id: self.link_id,
            dest_hash: self.dest_hash,
            link_state: self.link_state,
            delivery_state: self.delivery_state,
            representation: self.representation,
            progress: self.progress,
            queued: self.queued,
            queued_deliveries: self.queued_deliveries as nat,
            in_flight_deliveries: self.in_flight_deliveries as nat,
        }
    }
}

/// Snapshot of a reusable inbound backchannel.
#[derive(Debug, Clone, Copy, PartialEq, Eq)]
pub struct BackchannelLinkSnapshot {
    pub link_id: [u8; 16],
    pub dest_hash: [u8; 16],
    pub queued_deliveries: usize,
    pub in_flight_deliveries: usize,
}

impl View for BackchannelLinkSnapshot {
    type V = BackchannelSnapshotView;

    open spec fn view(&self) -> BackchannelSnapshotView {
        BackchannelSnapshotView {
            link_id: self.link_id,
            dest_hash: self.dest_hash,
            queued_deliveries: self.queued_deliveries as nat,
            in_flight_deliveries: self.in_flight_deliveries as nat,
        }
    }
}

/// Aggregate state of the manager for diagnostics and user interfaces.
#[derive(Debug, Clone, Copy, PartialEq, Eq)]
pub struct LinkDeliveryStats {
    pub sessions: usize,
    pub direct_sessions: usize,
    pub one_shot_sessions: usize,
    pub backchannel_sessions: usize,
    pub establishing_direct_sessions: usize,
    pub active_direct_sessions: usize,
    pub idle_direct_sessions: usize,
    pub queued_deliveries: usize,
    pub in_flight_deliveries: usize,
    pub pending_backchannel_starts: usize,
    pub pending_backchannel_deliveries: usize,
}

impl View for LinkDeliveryStats {
    type V = StatsView;

    open spec fn view(&self) -> StatsView {
        StatsView {
            sessions: self.sessions as nat,
            direct_sessions: self.direct_sessions as nat,
            one_shot_sessions: self.one_shot_sessions as nat,
            backchannel_sessions: self.backchannel_sessions as nat,
            establishing_direct_sessions: self.establishing_direct_sessions as nat,
            active_direct_sessions: self.active_direct_sessions as nat,
            idle_direct_sessions: self.idle_direct_sessions as nat,
            queued_deliveries: self.queued_deliveries as nat,
            in_flight_deliveries: self.in_flight_deliveries as nat,
            pending_backchannel_starts: self.pending_backchannel_starts as nat,
            pending_backchannel_deliveries: self.pending_backchannel_deliveries as nat,
        }
    }
}

impl StatsView {
    /// The numbers of a manager that has nothing.
    pub open spec fn zero() -> Self {
        StatsView {
            sessions: 0,
            direct_sessions: 0,
            one_shot_sessions: 0,
            backchannel_sessions: 0,
            establishing_direct_sessions: 0,
            active_direct_sessions: 0,
            idle_direct_sessions: 0,
            queued_deliveries: 0,
            in_flight_deliveries: 0,
            pending_backchannel_starts: 0,
            pending_backchannel_deliveries: 0,
        }
    }
}

impl Default for LinkDeliveryStats {
    fn default() -> (stats: Self)
        ensures
            stats@ == StatsView::zero(),
    {
        LinkDeliveryStats {
            sessions: 0,
            direct_sessions: 0,
            one_shot_sessions: 0,
            backchannel_sessions: 0,
            establishing_direct_sessions: 0,
            active_direct_sessions: 0,
            idle_direct_sessions: 0,
            queued_deliveries: 0,
            in_flight_deliveries: 0,
            pending_backchannel_starts: 0,
            pending_backchannel_deliveries: 0,
        }
    }
}

} // verus!
