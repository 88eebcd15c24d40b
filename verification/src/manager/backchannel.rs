//! Deliveries over inbound backchannel links.

use std::time::Instant;
use tokio::sync::oneshot;
use vstd::prelude::*;

use super::LinkDeliveryManager;
use crate::backchannel::{
    backchannel_delivery_event, fail_backchannel_delivery, fail_backchannel_start, start_views,
    BackchannelDeliveryEventInput, BackchannelProofKey, BackchannelReply, BackchannelSendCommand,
    BackchannelStartError, BackchannelStartFailure, BackchannelStartReport,
    PendingBackchannelDelivery, PendingBackchannelStart, ProofWaitView, SendOutcome, StartView,
};
use crate::channel::{backchannel_answer_channel, new_backchannel_answer_channel, Offer};
use crate::clock::clock_read;
use crate::events::{
    lemma_event_views_push, lemma_result_views_push, result_views, DeliveryResult, EventView,
    LxmfDeliveryEvent, LxmfDeliveryEventKind, LxmfDeliveryEventMethod, ResultView,
};
use crate::keyed::{entry_views, lemma_key_index, lemma_unique_filter};
use crate::message::{LxMessage, LxMessageView, MessageErrorView};
use crate::model::ManagerState;
use crate::types::{
    same_bytes, DeliveryRepresentation, DeliveryState, LinkState, Progress, PROGRESS_DONE,
    PROGRESS_LINK_READY,
};

verus! {

/// Why a backchannel delivery cannot even be offered to the runtime, if it cannot.
pub open spec fn backchannel_refusal(
    state: ManagerState,
    message: LxMessageView,
    dest_hash: [u8; 16],
) -> Option<BackchannelStartError> {
    if !state.backchannel_links.contains_key(dest_hash) {
        Some(BackchannelStartError::NoBackchannel)
    } else if state.backchannel_tx is None {
        Some(BackchannelStartError::SenderUnavailable)
    } else if message.packed is Err {
        Some(BackchannelStartError::PackFailed)
    } else {
        None
    }
}

/// The offer of a message over the backchannel to its destination, where nothing stands
/// in its way.
pub open spec fn backchannel_offer(
    state: ManagerState,
    message: LxMessageView,
    dest_hash: [u8; 16],
    result_tx: oneshot::Sender<BackchannelReply>,
    outcome: SendOutcome,
) -> Offer {
    Offer {
        tx: state.backchannel_tx->0,
        link_id: state.backchannel_links[dest_hash],
        payload: message.packed->Ok_0,
        auto_compress: message.auto_compress,
        result_tx,
        outcome,
    }
}

/// What an offer of a backchannel delivery comes to. A runtime that takes no commands
/// costs the destination its backchannel.
pub open spec fn offer_concluded(
    before: ManagerState,
    message: LxMessageView,
    dest_hash: [u8; 16],
    link_id: [u8; 16],
    outcome: SendOutcome,
    receiver: oneshot::Receiver<BackchannelReply>,
    now: Instant,
    after: ManagerState,
    started: Result<BackchannelStartReport, BackchannelStartFailure>,
) -> bool {
    match outcome {
        SendOutcome::Sent => {
            &&& after == before.backchannel_started(message, dest_hash, link_id, receiver, now)
            &&& started matches Ok(report)
            &&& report.link_id == link_id
            &&& report.dest_hash == dest_hash
            &&& report.queued_deliveries == before.starts.len() + 1
            &&& report.in_flight_deliveries == before.waits.len() + 1
        },
        SendOutcome::Full => {
            &&& after == before.without_backchannel(dest_hash)
            &&& started matches Err(failure)
            &&& failure.error is CommandFull
            &&& failure.message@ == message
        },
        SendOutcome::Closed => {
            &&& after == before.without_backchannel(dest_hash)
            &&& started matches Err(failure)
            &&& failure.error is CommandClosed
            &&& failure.message@ == message
        },
    }
}

impl LinkDeliveryManager {
    /// Makes the command that sends a message over the backchannel to a destination.
    pub fn backchannel_command(
        &self,
        message: &LxMessage,
        dest_hash: [u8; 16],
        result_tx: oneshot::Sender<BackchannelReply>,
    ) -> (made: Result<BackchannelSendCommand, BackchannelStartError>)
        ensures
            match backchannel_refusal(self@, message@, dest_hash) {
                Some(error) => made == Err::<BackchannelSendCommand, BackchannelStartError>(error),
                None => {
                    &&& made matches Ok(command)
                    &&& command.link_id == self@.backchannel_links[dest_hash]
                    &&& Ok::<Seq<u8>, MessageErrorView>(command.payload@) == message@.packed
                    &&& command.auto_compress == message.auto_compress
                    &&& command.result_tx == result_tx
                },
            },
    {
        match self.backchannel_links.get(&dest_hash) {
            None => Err(BackchannelStartError::NoBackchannel),
            Some(link_id) => if self.backchannel_tx.is_none() {
                Err(BackchannelStartError::SenderUnavailable)
            } else {
                match message.pack() {
                    Ok(payload) => Ok(
                        BackchannelSendCommand {
                            link_id,
                            payload,
                            auto_compress: message.auto_compress,
                            result_tx,
                        },
                    ),
                    Err(_) => Err(BackchannelStartError::PackFailed),
                }
            },
        }
    }

    /// Concludes an offer of a message to the runtime, given what became of it, where
    /// `receiver` is where the answer will come, and the clock says `now`.
    pub fn conclude_backchannel_offer(
        &mut self,
        message: LxMessage,
        dest_hash: [u8; 16],
        link_id: [u8; 16],
        outcome: SendOutcome,
        receiver: oneshot::Receiver<BackchannelReply>,
        now: Instant,
    ) -> (started: Result<BackchannelStartReport, BackchannelStartFailure>)
        requires
            old(self).wf(),
            old(self)@.delivery_count() < usize::MAX,
        ensures
            final(self).wf(),
            offer_concluded(
                old(self)@,
                message@,
                dest_hash,
                link_id,
                outcome,
                receiver,
                now,
                final(self)@,
                started,
            ),
    {
        let ghost before = self@;
        match outcome {
            SendOutcome::Sent => {
                let event = LxmfDeliveryEvent {
                    kind: LxmfDeliveryEventKind::BackchannelLinkReused,
                    method: LxmfDeliveryEventMethod::Direct,
                    link_id,
                    dest_hash,
                    msg_hash: message.hash,
                    attempts: message.delivery_attempts,
                    progress: Some(Progress { bits: PROGRESS_LINK_READY }),
                    representation: DeliveryRepresentation::Unknown,
                    link_state: LinkState::Active,
                    delivery_state: DeliveryState::Transferring,
                    queued_deliveries: self.pending_backchannel_starts.len(),
                    in_flight_deliveries: self.pending_backchannel_deliveries.len() + 1,
                    reason: None,
                };
                proof {
                    lemma_event_views_push(self.delivery_events@, event);
                }
                self.delivery_events.push_back(event);
                let ghost asked = message@;
                self.pending_backchannel_starts.push(
                    PendingBackchannelStart {
                        receiver,
                        message,
                        dest_hash,
                        link_id,
                        requested_at: now,
                    },
                );
                assert(self@ =~= before.backchannel_started(
                    asked,
                    dest_hash,
                    link_id,
                    receiver,
                    now,
                ));
                Ok(
                    BackchannelStartReport {
                        link_id,
                        dest_hash,
                        queued_deliveries: self.pending_backchannel_starts.len(),
                        in_flight_deliveries: self.pending_backchannel_deliveries.len() + 1,
                    },
                )
            },
            SendOutcome::Full => {
                let _ = self.backchannel_links.remove(&dest_hash);
                Err(
                    BackchannelStartFailure {
                        error: BackchannelStartError::CommandFull,
                        message: Box::new(message),
                    },
                )
            },
            SendOutcome::Closed => {
                let _ = self.backchannel_links.remove(&dest_hash);
                Err(
                    BackchannelStartFailure {
                        error: BackchannelStartError::CommandClosed,
                        message: Box::new(message),
                    },
                )
            },
        }
    }

    /// Starts a Direct delivery over a registered inbound backchannel link. Where
    /// nothing stands in the way, the message is offered to the runtime, once; what
    /// follows is what [`Self::conclude_backchannel_offer`] makes of the outcome.
    pub fn start_backchannel_delivery(&mut self, message: LxMessage, dest_hash: [u8; 16]) -> (started:
        Result<BackchannelStartReport, BackchannelStartFailure>)
        requires
            old(self).wf(),
            old(self)@.delivery_count() < usize::MAX,
        ensures
            final(self).wf(),
            match backchannel_refusal(old(self)@, message@, dest_hash) {
                Some(error) => {
                    &&& final(self)@ == old(self)@
                    &&& started matches Err(failure)
                    &&& failure.error == error
                    &&& failure.message@ == message@
                },
                None => exists|
                    outcome: SendOutcome,
                    result_tx: oneshot::Sender<BackchannelReply>,
                    receiver: oneshot::Receiver<BackchannelReply>,
                    now: Instant,
                |
                    {
                        &&& backchannel_answer_channel(result_tx, receiver)
                        &&& clock_read(now)
                        &&& #[trigger] offer_concluded(
                            old(self)@.with_offer(
                                backchannel_offer(
                                    old(self)@,
                                    message@,
                                    dest_hash,
                                    result_tx,
                                    outcome,
                                ),
                            ),
                            message@,
                            dest_hash,
                            old(self)@.backchannel_links[dest_hash],
                            outcome,
                            receiver,
                            now,
                            final(self)@,
                            started,
                        )
                    },
            },
    {
        let (result_tx, receiver) = new_backchannel_answer_channel();
        match self.backchannel_command(&message, dest_hash, result_tx) {
            Err(error) => Err(BackchannelStartFailure { error, message: Box::new(message) }),
            Ok(command) => {
                let link_id = command.link_id;
                let ghost payload = command.payload@;
                assert(payload == message@.packed->Ok_0);
                let outcome = match &mut self.backchannel_tx {
                    Some(sender) => sender.offer(command),
                    None => SendOutcome::Closed,
                };
                assert(self@ =~= old(self)@.with_offer(
                    backchannel_offer(old(self)@, message@, dest_hash, result_tx, outcome),
                ));
                let now = Instant::now();
                self.conclude_backchannel_offer(message, dest_hash, link_id, outcome, receiver, now)
            },
        }
    }

    /// Removes cached backchannel state for a closed link and fails any in-flight
    /// backchannel sends that were using it.
    pub fn fail_backchannel_link(&mut self, link_id: [u8; 16], reason: &str) -> (results: Vec<
        DeliveryResult,
    >)
        requires
            old(self).wf(),
        ensures
            final(self).wf(),
            final(self)@ == old(self)@.fail_backchannel_link(link_id, reason@).state,
            result_views(results@) == old(self)@.fail_backchannel_link(link_id, reason@).results,
    {
        let ghost before = self@;
        let mut results: Vec<DeliveryResult> = Vec::new();
        self.backchannel_links.remove_link(&link_id);
        self.fail_link_starts(link_id, reason, &mut results);
        self.fail_link_waits(link_id, reason, &mut results);
        let ghost lost = before.fail_backchannel_link(link_id, reason@);
        assert(self@.events =~= lost.state.events);
        assert(result_views(results@) =~= lost.results);
        results
    }

    /// Fails the unanswered sends over a link.
    fn fail_link_starts(
        &mut self,
        link_id: [u8; 16],
        reason: &str,
        results: &mut Vec<DeliveryResult>,
    )
        requires
            old(self).wf(),
        ensures
            final(self).wf(),
            ({
                let lost = old(self)@.starts.filter(|start: StartView| start.link_id == link_id);
                &&& final(self)@ == (ManagerState {
                    starts: old(self)@.starts.filter(|start: StartView| start.link_id != link_id),
                    events: old(self)@.events + lost.map_values(
                        |start: StartView| start.failed_event(reason@),
                    ),
                    ..old(self)@
                })
                &&& result_views(final(results)@) == result_views(old(results)@)
                    + lost.map_values(|start: StartView| start.failed_result(reason@))
            }),
    {
        let ghost before = self@;
        let ghost all = before.starts;
        let ghost hit = |start: StartView| start.link_id == link_id;
        let ghost miss = |start: StartView| start.link_id != link_id;
        let ghost told = |start: StartView| start.failed_event(reason@);
        let ghost handed = |start: StartView| start.failed_result(reason@);
        let mut starts: Vec<PendingBackchannelStart> = Vec::new();
        std::mem::swap(&mut starts, &mut self.pending_backchannel_starts);
        assert(start_views(starts@) == all);
        proof {
            all.lemma_filter_len(miss);
            assert(all.take(0) =~= Seq::<StartView>::empty());
            reveal(Seq::filter);
            assert(self@.starts =~= Seq::<StartView>::empty());
            assert(before.events + Seq::<EventView>::empty() =~= before.events);
            assert(result_views(results@) + Seq::<ResultView>::empty() =~= result_views(results@));
            assert(Seq::<StartView>::empty().map_values(told) =~= Seq::<EventView>::empty());
            assert(Seq::<StartView>::empty().map_values(handed) =~= Seq::<ResultView>::empty());
        }
        for start in it: starts
            invariant
                all == before.starts,
                start_views(it.seq()) == all,
                hit == (|start: StartView| start.link_id == link_id),
                miss == (|start: StartView| start.link_id != link_id),
                told == (|start: StartView| start.failed_event(reason@)),
                handed == (|start: StartView| start.failed_result(reason@)),
                self@ == (ManagerState {
                    starts: all.take(it.index()).filter(miss),
                    events: before.events + all.take(it.index()).filter(hit).map_values(told),
                    ..before
                }),
                self.direct_links.wf(),
                self.backchannel_links.wf(),
                result_views(results@) == result_views(old(results)@) + all.take(
                    it.index(),
                ).filter(hit).map_values(handed),
        {
            let ghost at = it.index();
            let ghost here = start@;
            let ghost seen = all.take(at);
            proof {
                assert(start_views(it.seq())[at] == here);
                assert(all.take(at + 1) =~= seen.push(here));
                seen.lemma_filter_push(here, hit);
                seen.lemma_filter_push(here, miss);
            }
            if same_bytes(&start.link_id, &link_id) {
                let (event, result) = fail_backchannel_start(start, reason.to_owned());
                proof {
                    lemma_event_views_push(self.delivery_events@, event);
                    lemma_result_views_push(results@, result);
                    seen.filter(hit).lemma_push_map_commute(told, here);
                    seen.filter(hit).lemma_push_map_commute(handed, here);
                }
                self.delivery_events.push_back(event);
                results.push(result);
            } else {
                let ghost kept = self.pending_backchannel_starts@;
                self.pending_backchannel_starts.push(start);
                assert(start_views(self.pending_backchannel_starts@) =~= start_views(kept).push(
                    here,
                ));
            }
            assert(self@ =~= (ManagerState {
                starts: all.take(at + 1).filter(miss),
                events: before.events + all.take(at + 1).filter(hit).map_values(told),
                ..before
            }));
        }
        assert(all.take(all.len() as int) =~= all);
    }

    /// Fails the sends over a link that wait for their proofs.
    fn fail_link_waits(
        &mut self,
        link_id: [u8; 16],
        reason: &str,
        results: &mut Vec<DeliveryResult>,
    )
        requires
            old(self).wf(),
        ensures
            final(self).wf(),
            ({
                let lost = old(self)@.waits.filter(
                    |entry: (BackchannelProofKey, ProofWaitView)| entry.1.link_id == link_id,
                );
                &&& final(self)@ == (ManagerState {
                    waits: old(self)@.waits.filter(
                        |entry: (BackchannelProofKey, ProofWaitView)| entry.1.link_id != link_id,
                    ),
                    events: old(self)@.events + lost.map_values(
                        |entry: (BackchannelProofKey, ProofWaitView)|
                            entry.1.failed_event(reason@),
                    ),
                    ..old(self)@
                })
                &&& result_views(final(results)@) == result_views(old(results)@)
                    + lost.map_values(
                    |entry: (BackchannelProofKey, ProofWaitView)| entry.1.failed_result(reason@),
                )
            }),
    {
        let ghost before = self@;
        let ghost all = before.waits;
        let ghost hit = |entry: (BackchannelProofKey, ProofWaitView)| entry.1.link_id == link_id;
        let ghost miss = |entry: (BackchannelProofKey, ProofWaitView)| entry.1.link_id != link_id;
        let ghost told = |entry: (BackchannelProofKey, ProofWaitView)|
            entry.1.failed_event(reason@);
        let ghost handed = |entry: (BackchannelProofKey, ProofWaitView)|
            entry.1.failed_result(reason@);
        let mut entries: Vec<(BackchannelProofKey, PendingBackchannelDelivery)> = Vec::new();
        std::mem::swap(&mut entries, &mut self.pending_backchannel_deliveries.entries);
        assert(entry_views(entries@) == all);
        proof {
            all.lemma_filter_len(miss);
            lemma_unique_filter(all, miss);
            assert(all.take(0) =~= Seq::<(BackchannelProofKey, ProofWaitView)>::empty());
            reveal(Seq::filter);
            assert(self@.waits =~= Seq::<(BackchannelProofKey, ProofWaitView)>::empty());
            assert(before.events + Seq::<EventView>::empty() =~= before.events);
            assert(result_views(results@) + Seq::<ResultView>::empty() =~= result_views(results@));
            assert(Seq::<(BackchannelProofKey, ProofWaitView)>::empty().map_values(told)
                =~= Seq::<EventView>::empty());
            assert(Seq::<(BackchannelProofKey, ProofWaitView)>::empty().map_values(handed)
                =~= Seq::<ResultView>::empty());
        }
        for entry in it: entries
            invariant
                all == before.waits,
                entry_views(it.seq()) == all,
                hit == (|entry: (BackchannelProofKey, ProofWaitView)|
                    entry.1.link_id == link_id),
                miss == (|entry: (BackchannelProofKey, ProofWaitView)|
                    entry.1.link_id != link_id),
                told == (|entry: (BackchannelProofKey, ProofWaitView)|
                    entry.1.failed_event(reason@)),
                handed == (|entry: (BackchannelProofKey, ProofWaitView)|
                    entry.1.failed_result(reason@)),
                self@ == (ManagerState {
                    waits: all.take(it.index()).filter(miss),
                    events: before.events + all.take(it.index()).filter(hit).map_values(told),
                    ..before
                }),
                self.direct_links.wf(),
                self.backchannel_links.wf(),
                result_views(results@) == result_views(old(results)@) + all.take(
                    it.index(),
                ).filter(hit).map_values(handed),
        {
            let ghost at = it.index();
            let ghost here = (entry.0, entry.1@);
            let ghost seen = all.take(at);
            proof {
                assert(entry_views(it.seq())[at] == here);
                assert(all.take(at + 1) =~= seen.push(here));
                seen.lemma_filter_push(here, hit);
                seen.lemma_filter_push(here, miss);
            }
            if same_bytes(&entry.1.link_id, &link_id) {
                let (event, result) = fail_backchannel_delivery(entry.1, reason.to_owned());
                proof {
                    lemma_event_views_push(self.delivery_events@, event);
                    lemma_result_views_push(results@, result);
                    seen.filter(hit).lemma_push_map_commute(told, here);
                    seen.filter(hit).lemma_push_map_commute(handed, here);
                }
                self.delivery_events.push_back(event);
                results.push(result);
            } else {
                let ghost kept = self.pending_backchannel_deliveries.entries@;
                self.pending_backchannel_deliveries.entries.push(entry);
                assert(entry_views(self.pending_backchannel_deliveries.entries@) =~= entry_views(
                    kept,
                ).push(here));
            }
            assert(self@ =~= (ManagerState {
                waits: all.take(at + 1).filter(miss),
                events: before.events + all.take(at + 1).filter(hit).map_values(told),
                ..before
            }));
        }
        assert(all.take(all.len() as int) =~= all);
    }

    /// A packet that was sent over a backchannel is proved.
    pub fn handle_backchannel_packet_proof(
        &mut self,
        link_id: [u8; 16],
        packet_hash: [u8; 32],
    ) -> (result: Option<DeliveryResult>)
        requires
            old(self).wf(),
        ensures
            final(self).wf(),
            proof_handled(
                old(self)@,
                BackchannelProofKey::Packet(link_id, packet_hash),
                final(self)@,
                result,
            ),
    {
        self.complete_backchannel_delivery(BackchannelProofKey::Packet(link_id, packet_hash))
    }

    /// A resource that was sent over a backchannel is proved.
    pub fn handle_backchannel_resource_proof(
        &mut self,
        link_id: [u8; 16],
        resource_hash: [u8; 32],
    ) -> (result: Option<DeliveryResult>)
        requires
            old(self).wf(),
        ensures
            final(self).wf(),
            proof_handled(
                old(self)@,
                BackchannelProofKey::Resource(link_id, resource_hash),
                final(self)@,
                result,
            ),
    {
        self.complete_backchannel_delivery(BackchannelProofKey::Resource(link_id, resource_hash))
    }

    /// Completes the send that waited for a proof, if one did.
    fn complete_backchannel_delivery(&mut self, key: BackchannelProofKey) -> (result: Option<
        DeliveryResult,
    >)
        requires
            old(self).wf(),
        ensures
            final(self).wf(),
            proof_handled(old(self)@, key, final(self)@, result),
    {
        let ghost before = self@;
        proof {
            lemma_key_index(before.waits, key);
        }
        match self.pending_backchannel_deliveries.remove(&key) {
            None => None,
            Some(delivery) => {
                let event = backchannel_delivery_event(
                    BackchannelDeliveryEventInput {
                        kind: LxmfDeliveryEventKind::Delivered,
                        message: &delivery.message,
                        dest_hash: delivery.dest_hash,
                        link_id: delivery.link_id,
                        representation: delivery.representation,
                        progress: Some(Progress { bits: PROGRESS_DONE }),
                        reason: None,
                        link_state: LinkState::Active,
                        delivery_state: DeliveryState::Complete,
                    },
                );
                proof {
                    lemma_event_views_push(self.delivery_events@, event);
                }
                self.delivery_events.push_back(event);
                assert(self@ =~= before.proved(key));
                Some(
                    DeliveryResult::Complete {
                        link_id: delivery.link_id,
                        msg_hash: delivery.message.hash,
                    },
                )
            },
        }
    }
}

/// What a proof comes to: the send that waited for it is delivered; a proof that
/// nothing waited for changes nothing.
pub open spec fn proof_handled(
    before: ManagerState,
    key: BackchannelProofKey,
    after: ManagerState,
    result: Option<DeliveryResult>,
) -> bool {
    match before.proof_result(key) {
        Some(told) => {
            &&& after == before.proved(key)
            &&& result matches Some(result)
            &&& result@ == told
        },
        None => after == before && result is None,
    }
}

} // verus!
