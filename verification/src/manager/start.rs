//! Starting deliveries over outbound links.

use std::time::Instant;
use tokio::sync::oneshot;
use vstd::prelude::*;

use super::LinkDeliveryManager;
use crate::channel::{link_answer_channel, new_link_answer_channel};
use crate::clock::{clock_read, elapsed_nanos};
use crate::commands::{lemma_command_views_push, LinkCommand, LinkReply};
use crate::counts::{lemma_owned_with_entry, lemma_owned_without_key};
use crate::events::{
    lemma_event_views_push, LxmfDeliveryEvent, LxmfDeliveryEventKind, LxmfDeliveryEventMethod,
};
use crate::failure::{LinkDeliveryStartError, LinkDeliveryStartFailure};
use crate::keyed::{
    has_key, key_index, keyed_by, lemma_key_index, lemma_unique_remove, lemma_unique_with_entry, with_entry,
};
use crate::laws::coherence::{
    attaching_keeps_coherence, opening_keeps_coherence, releasing_keeps_coherence,
};
use crate::message::{LxMessage, LxMessageView};
use crate::model::{DirectLinkStartKind, ManagerState};
use crate::queue::DirectDeliveryQueue;
use crate::reports::{DeliveryStart, DirectLinkStartReport, DirectStart, LinkOpenRequest};
use crate::seqs::{lemma_first_where_is, lemma_first_where_none};
use crate::session::{OutboundDeliveryLink, PendingDelivery};
use crate::text::{hex_encode, hex_text};
use crate::types::{
    DeliveryRepresentation, DeliveryState, LinkState, Progress, PROGRESS_LINK_PENDING,
    PROGRESS_LINK_READY,
};

verus! {

/// Why no link can be opened, where none can.
pub open spec fn start_error(state: ManagerState) -> LinkDeliveryStartError {
    if state.runtime is None {
        LinkDeliveryStartError::RuntimeUnavailable
    } else {
        LinkDeliveryStartError::RemoteIdentityUnavailable
    }
}

/// What starting a Direct delivery comes to, where the cached link has been idle for
/// so long: the cached link takes the message, or, after an unusable cache entry was
/// dropped, a link is to be opened, or the message is handed back.
pub open spec fn direct_start_is(
    before: ManagerState,
    message: LxMessageView,
    dest_hash: [u8; 16],
    hops: u8,
    idle: u128,
    now: Instant,
    after: ManagerState,
    started: Result<DirectStart, LinkDeliveryStartFailure>,
) -> bool {
    if before.attachable(dest_hash, idle) {
        &&& after == before.attached(message, dest_hash, now)
        &&& started matches Ok(DirectStart::Attached(report))
        &&& report@ == before.attached_report(message, dest_hash, now)
    } else {
        &&& after == before.released(dest_hash, idle)
        &&& match before.direct_request(message, dest_hash, hops) {
            Some(request) => {
                &&& started matches Ok(DirectStart::OpenLink(open))
                &&& open@ == request
            },
            None => {
                &&& started matches Err(failure)
                &&& failure.error == start_error(before)
                &&& failure.message@ == message
            },
        }
    }
}

impl LinkDeliveryManager {
    /// The public key of a destination.
    fn public_key_of(&self, dest_hash: &[u8; 16]) -> (key: Option<[u8; 64]>)
        ensures
            key == self@.known_key(*dest_hash),
    {
        let name = hex_encode(dest_hash.as_slice());
        let mut i: usize = 0;
        while i < self.known_identities.len()
            invariant
                i <= self.known_identities.len(),
                name@ == hex_text(dest_hash@),
                forall|j: int|
                    0 <= j < i ==> (#[trigger] self@.known_identities[j]).0 != hex_text(
                        dest_hash@,
                    ),
            decreases self.known_identities.len() - i,
        {
            assert(self@.known_identities[i as int] == self.known_identities@[i as int]@);
            if self.known_identities[i].name == name {
                proof {
                    lemma_first_where_is(
                        self@.known_identities,
                        keyed_by(name@),
                        i as int,
                    );
                }
                return Some(self.known_identities[i].public_key);
            }
            i += 1;
        }
        proof {
            lemma_first_where_none(self@.known_identities, keyed_by(name@));
        }
        None
    }

    /// Hands a message back that no link can be opened for.
    fn start_failure(&self, message: LxMessage) -> (failure: LinkDeliveryStartFailure)
        ensures
            failure.error == start_error(self@),
            failure.message@ == message@,
    {
        LinkDeliveryStartFailure {
            error: if self.runtime.is_none() {
                LinkDeliveryStartError::RuntimeUnavailable
            } else {
                LinkDeliveryStartError::RemoteIdentityUnavailable
            },
            message: Box::new(message),
        }
    }

    /// Starts a Direct delivery, where the cached link to the destination, if there is
    /// one, has been idle for so many nanoseconds, and the clock says `now`.
    pub fn start_direct_delivery(
        &mut self,
        message: LxMessage,
        dest_hash: [u8; 16],
        hops: u8,
        idle: u128,
        now: Instant,
    ) -> (started: Result<DirectStart, LinkDeliveryStartFailure>)
        requires
            old(self).wf(),
            old(self)@.delivery_count() < usize::MAX,
        ensures
            final(self).wf(),
            direct_start_is(
                old(self)@,
                message@,
                dest_hash,
                hops,
                idle,
                now,
                final(self)@,
                started,
            ),
    {
        let ghost before = self@;
        if let Some(link_id) = self.direct_links.get(&dest_hash) {
            match self.pending.position(&link_id) {
                None => {
                    let _ = self.direct_links.remove(&dest_hash);
                },
                Some(i) => {
                    let reusable = self.pending.entries[i].1.reusable;
                    let expired = self.pending.entries[i].1.direct_link_idle_expired(idle);
                    assert(self@.sessions[i as int].1 == self.pending.entries@[i as int].1@);
                    if reusable && !expired {
                        return Ok(DirectStart::Attached(
                            self.attach(message, dest_hash, link_id, i, now),
                        ));
                    }
                    if reusable && expired {
                        proof {
                            lemma_unique_remove(before.sessions, i as int);
                            lemma_owned_without_key(before.sessions, link_id);
                        }
                        let _ = self.pending.remove_at(i);
                        let close = LinkCommand::Close { link_id };
                        let deregister = LinkCommand::DeregisterDestination { link_id };
                        proof {
                            lemma_command_views_push(self.link_commands@, close);
                            lemma_command_views_push(self.link_commands@.push(close), deregister);
                        }
                        self.link_commands.push_back(close);
                        self.link_commands.push_back(deregister);
                    }
                    let _ = self.direct_links.remove(&dest_hash);
                },
            }
        }
        proof {
            assert(self@ =~= before.released(dest_hash, idle));
            releasing_keeps_coherence(before, dest_hash, idle);
        }
        assert(self.wf());
        self.request_direct_link(message, dest_hash, hops)
    }

    /// Gives a Direct message to the session at a place.
    fn attach(
        &mut self,
        message: LxMessage,
        dest_hash: [u8; 16],
        link_id: [u8; 16],
        i: usize,
        now: Instant,
    ) -> (report: DirectLinkStartReport)
        requires
            old(self).wf(),
            old(self)@.delivery_count() < usize::MAX,
            old(self)@.direct_links.contains_key(dest_hash),
            old(self)@.direct_links[dest_hash] == link_id,
            i < old(self).pending.entries.len(),
            key_index(old(self)@.sessions, link_id) == Some(i as int),
        ensures
            final(self).wf(),
            final(self)@ == old(self)@.attached(message@, dest_hash, now),
            report@ == old(self)@.attached_report(message@, dest_hash, now),
    {
        let ghost before = self@;
        let ghost session = before.sessions[i as int].1;
        let ghost after = session.attach(message@, now);
        proof {
            lemma_key_index(before.sessions, link_id);
            lemma_unique_with_entry(before.sessions, link_id, after);
            lemma_owned_with_entry(before.sessions, link_id, after);
        }
        let msg_hash = message.hash;
        let attempts = message.delivery_attempts;
        let delivery = &mut self.pending.entries[i].1;
        let link_state = delivery.link.state();
        let free = delivery.state == DeliveryState::Idle && delivery.link.is_active();
        let kind = if free && delivery.queue.is_empty() {
            DirectLinkStartKind::ReusedActiveDirect
        } else {
            DirectLinkStartKind::QueuedOnDirect
        };
        delivery.queue_delivery(message, None, true);
        if free {
            let _ = delivery.start_queued_delivery(now);
        }
        let report = DirectLinkStartReport {
            link_id,
            dest_hash,
            kind,
            link_state,
            delivery_state: delivery.state,
            queued_deliveries: delivery.queue.len(),
            in_flight_deliveries: delivery.in_flight_count(),
        };
        assert(delivery@ == after);
        let event = LxmfDeliveryEvent {
            kind: match kind {
                DirectLinkStartKind::ReusedActiveDirect => LxmfDeliveryEventKind::DirectLinkReused,
                DirectLinkStartKind::QueuedOnDirect => LxmfDeliveryEventKind::DirectLinkPending,
                DirectLinkStartKind::NewDirect => LxmfDeliveryEventKind::LinkEstablishing,
            },
            method: LxmfDeliveryEventMethod::Direct,
            link_id,
            dest_hash,
            msg_hash,
            attempts,
            progress: Some(
                Progress {
                    bits: if link_state == LinkState::Active {
                        PROGRESS_LINK_READY
                    } else {
                        PROGRESS_LINK_PENDING
                    },
                },
            ),
            representation: DeliveryRepresentation::Unknown,
            link_state: report.link_state,
            delivery_state: report.delivery_state,
            queued_deliveries: report.queued_deliveries,
            in_flight_deliveries: report.in_flight_deliveries,
            reason: None,
        };
        proof {
            lemma_event_views_push(self.delivery_events@, event);
        }
        self.delivery_events.push_back(event);
        assert(self@.sessions =~= with_entry(before.sessions, link_id, after));
        proof {
            assert(self@ =~= before.attached(message@, dest_hash, now));
            attaching_keeps_coherence(before, message@, dest_hash, now);
        }
        report
    }

    /// Asks for a link for a Direct message, where one can be opened.
    fn request_direct_link(&self, message: LxMessage, dest_hash: [u8; 16], hops: u8) -> (started:
        Result<DirectStart, LinkDeliveryStartFailure>)
        ensures
            match self@.direct_request(message@, dest_hash, hops) {
                Some(request) => {
                    &&& started matches Ok(DirectStart::OpenLink(open))
                    &&& open@ == request
                },
                None => {
                    &&& started matches Err(failure)
                    &&& failure.error == start_error(self@)
                    &&& failure.message@ == message@
                },
            },
    {
        match (&self.runtime, self.public_key_of(&dest_hash)) {
            (Some(timing), Some(public_key)) => match message.pack() {
                Ok(payload) => {
                    let auto_compress = message.auto_compress;
                    Ok(
                        DirectStart::OpenLink(
                            LinkOpenRequest {
                                message,
                                dest_hash,
                                hops,
                                public_key,
                                payload,
                                auto_compress,
                                reusable: true,
                                establishment_timeout: timing.establishment_timeout(hops),
                                timeout: timing.delivery_timeout(hops),
                                inbound_packet_tx: match &self.inbound_packet_tx {
                                    Some(tx) => Some(tx.clone()),
                                    None => None,
                                },
                            },
                        ),
                    )
                },
                Err(_) => Err(self.start_failure(message)),
            },
            _ => Err(self.start_failure(message)),
        }
    }

    /// How long the cached link to a destination has been idle, in nanoseconds, as far
    /// as the clock can tell. The number means nothing where there is no such link.
    pub(super) fn cached_link_idle(&self, dest_hash: &[u8; 16]) -> (idle: u128)
        ensures
            self@.idle_read(*dest_hash, idle),
    {
        match self.direct_links.get(dest_hash) {
            Some(link_id) => match self.pending.get(&link_id) {
                Some(delivery) => elapsed_nanos(&delivery.started_at),
                None => 0,
            },
            None => 0,
        }
    }

    /// Starts a Direct delivery and tells whether a cached link took the message or a
    /// link is to be opened for it. Whatever the clock says, the outcome is the one
    /// that [`Self::start_direct_delivery`] gives for the time of idleness that was read.
    pub fn start_delivery_with_report(
        &mut self,
        message: LxMessage,
        dest_hash: [u8; 16],
        hops: u8,
    ) -> (started: Result<DirectStart, LinkDeliveryStartFailure>)
        requires
            old(self).wf(),
            old(self)@.delivery_count() < usize::MAX,
        ensures
            final(self).wf(),
            exists|idle: u128, now: Instant|
                {
                    &&& old(self)@.idle_read(dest_hash, idle)
                    &&& clock_read(now)
                    &&& #[trigger] direct_start_is(
                        old(self)@,
                        message@,
                        dest_hash,
                        hops,
                        idle,
                        now,
                        final(self)@,
                        started,
                    )
                },
    {
        let idle = self.cached_link_idle(&dest_hash);
        let now = Instant::now();
        self.start_direct_delivery(message, dest_hash, hops, idle, now)
    }

    /// Starts a Direct delivery and tells which link tracks it, or that a link is to be
    /// opened for it.
    pub fn start_delivery(&mut self, message: LxMessage, dest_hash: [u8; 16], hops: u8) -> (started:
        Result<DeliveryStart, LinkDeliveryStartFailure>)
        requires
            old(self).wf(),
            old(self)@.delivery_count() < usize::MAX,
        ensures
            final(self).wf(),
            exists|idle: u128, now: Instant, reported: Result<DirectStart, LinkDeliveryStartFailure>|
                {
                    &&& old(self)@.idle_read(dest_hash, idle)
                    &&& clock_read(now)
                    &&& #[trigger] direct_start_is(
                        old(self)@,
                        message@,
                        dest_hash,
                        hops,
                        idle,
                        now,
                        final(self)@,
                        reported,
                    )
                    &&& match reported {
                        Ok(DirectStart::Attached(report)) => started == Ok::<
                            DeliveryStart,
                            LinkDeliveryStartFailure,
                        >(DeliveryStart::Attached(report.link_id)),
                        Ok(DirectStart::OpenLink(open)) => started == Ok::<
                            DeliveryStart,
                            LinkDeliveryStartFailure,
                        >(DeliveryStart::OpenLink(open)),
                        Err(failure) => started == Err::<DeliveryStart, LinkDeliveryStartFailure>(
                            failure,
                        ),
                    }
                },
    {
        match self.start_delivery_with_report(message, dest_hash, hops) {
            Ok(DirectStart::Attached(report)) => Ok(DeliveryStart::Attached(report.link_id)),
            Ok(DirectStart::OpenLink(open)) => Ok(DeliveryStart::OpenLink(open)),
            Err(failure) => Err(failure),
        }
    }

    /// Starts a link delivery with an already-packed payload, over a link of its own.
    ///
    /// This is used for LXMF propagation deposits, whose link payload is the
    /// propagation wrapper rather than the regular signed LXMF representation.
    pub fn start_packed_delivery(
        &self,
        message: LxMessage,
        dest_hash: [u8; 16],
        hops: u8,
        packed_payload: Vec<u8>,
        auto_compress: bool,
    ) -> (started: Result<LinkOpenRequest, LinkDeliveryStartFailure>)
        requires
            self.wf(),
        ensures
            match self@.packed_request(
                message@,
                dest_hash,
                hops,
                packed_payload@,
                auto_compress,
            ) {
                Some(request) => {
                    &&& started matches Ok(open)
                    &&& open@ == request
                },
                None => {
                    &&& started matches Err(failure)
                    &&& failure.error == start_error(self@)
                    &&& failure.message@ == message@
                },
            },
    {
        match (&self.runtime, self.public_key_of(&dest_hash)) {
            (Some(timing), Some(public_key)) => Ok(
                LinkOpenRequest {
                    message,
                    dest_hash,
                    hops,
                    public_key,
                    payload: packed_payload,
                    auto_compress,
                    reusable: false,
                    establishment_timeout: timing.establishment_timeout(hops),
                    timeout: timing.delivery_timeout(hops),
                    inbound_packet_tx: None,
                },
            ),
            _ => Err(self.start_failure(message)),
        }
    }

    /// Takes note of the link that the runtime opened for a request, where `result_tx`
    /// and `receiver` are the halves of the channel for the answer, and the clock says
    /// `now`.
    pub fn note_opened_link(
        &mut self,
        request: LinkOpenRequest,
        link_id: [u8; 16],
        result_tx: oneshot::Sender<LinkReply>,
        receiver: oneshot::Receiver<LinkReply>,
        now: Instant,
    ) -> (report: DirectLinkStartReport)
        requires
            old(self).wf(),
            old(self)@.delivery_count() < usize::MAX,
            !has_key(old(self)@.sessions, link_id),
            request.reusable ==> !old(self)@.direct_links.contains_key(request.dest_hash),
        ensures
            final(self).wf(),
            final(self)@ == old(self)@.opened(request@, link_id, result_tx, receiver, now),
            report@ == request@.report(link_id),
    {
        let ghost before = self@;
        let ghost asked = request@;
        let ghost session = asked.session(link_id, receiver, now);
        proof {
            lemma_unique_with_entry(before.sessions, link_id, session);
            lemma_owned_with_entry(before.sessions, link_id, session);
        }
        let command = LinkCommand::SendPayload {
            link_id,
            payload: request.payload,
            auto_compress: request.auto_compress,
            deadline: request.timeout,
            identify_before_send: !request.reusable,
            result_tx,
        };
        proof {
            lemma_command_views_push(self.link_commands@, command);
        }
        self.link_commands.push_back(command);
        if request.reusable {
            let event = LxmfDeliveryEvent {
                kind: LxmfDeliveryEventKind::LinkEstablishing,
                method: LxmfDeliveryEventMethod::Direct,
                link_id,
                dest_hash: request.dest_hash,
                msg_hash: request.message.hash,
                attempts: request.message.delivery_attempts,
                progress: Some(Progress { bits: PROGRESS_LINK_PENDING }),
                representation: DeliveryRepresentation::Unknown,
                link_state: LinkState::Pending,
                delivery_state: DeliveryState::Establishing,
                queued_deliveries: 0,
                in_flight_deliveries: 1,
                reason: None,
            };
            proof {
                lemma_event_views_push(self.delivery_events@, event);
            }
            self.delivery_events.push_back(event);
            self.direct_links.insert(request.dest_hash, link_id);
        }
        let report = DirectLinkStartReport {
            link_id,
            dest_hash: request.dest_hash,
            kind: DirectLinkStartKind::NewDirect,
            link_state: LinkState::Pending,
            delivery_state: DeliveryState::Establishing,
            queued_deliveries: 0,
            in_flight_deliveries: 1,
        };
        let msg_hash = request.message.hash;
        let delivery = PendingDelivery {
            message: request.message,
            dest_hash: request.dest_hash,
            packed_override: None,
            auto_compress: request.reusable || request.auto_compress,
            link: OutboundDeliveryLink::requested(link_id),
            state: DeliveryState::Establishing,
            started_at: now,
            runtime_result: Some(receiver),
            establishment_timeout: request.establishment_timeout,
            timeout: request.timeout,
            msg_hash,
            failure_reason: None,
            reusable: request.reusable,
            backchannel_identified: !request.reusable,
            queue: DirectDeliveryQueue::new(),
        };
        assert(delivery@ =~= session);
        self.pending.insert(link_id, delivery);
        proof {
            assert(self@ =~= before.opened(asked, link_id, result_tx, receiver, now));
            opening_keeps_coherence(before, asked, link_id, result_tx, receiver, now);
        }
        report
    }

    /// Takes note of the link that the runtime opened for a request: the message is on
    /// its way over it, and a reusable link is cached for its destination.
    pub fn link_opened(&mut self, request: LinkOpenRequest, link_id: [u8; 16]) -> (report:
        DirectLinkStartReport)
        requires
            old(self).wf(),
            old(self)@.delivery_count() < usize::MAX,
            !has_key(old(self)@.sessions, link_id),
            request.reusable ==> !old(self)@.direct_links.contains_key(request.dest_hash),
        ensures
            final(self).wf(),
            report@ == request@.report(link_id),
            exists|
                result_tx: oneshot::Sender<LinkReply>,
                receiver: oneshot::Receiver<LinkReply>,
                now: Instant,
            |
                {
                    &&& link_answer_channel(result_tx, receiver)
                    &&& clock_read(now)
                    &&& final(self)@ == #[trigger] old(self)@.opened(
                        request@,
                        link_id,
                        result_tx,
                        receiver,
                        now,
                    )
                },
    {
        let (result_tx, receiver) = new_link_answer_channel();
        let now = Instant::now();
        self.note_opened_link(request, link_id, result_tx, receiver, now)
    }
}

} // verus!
