//! The periodic round that drives pending deliveries forward.

use std::time::Instant;
use vstd::prelude::*;

use super::LinkDeliveryManager;
use crate::backchannel::{
    backchannel_delivery_event, fail_backchannel_delivery, fail_backchannel_start, start_views,
    BackchannelDeliveryEventInput, BackchannelProofKey, BackchannelReply, BackchannelSendReceipt,
    PendingBackchannelDelivery, PendingBackchannelStart, ProofWaitView, StartView, BACKCHANNEL_DELIVERY_TIMEOUT,
    BACKCHANNEL_SEND_COMMAND_TIMEOUT,
};
use crate::channel::{new_link_answer_channel, poll_backchannel_reply, poll_link_reply, Poll};
use crate::clock::{elapsed_nanos, elapsed_read};
use crate::commands::{
    lemma_command_views_push, LinkCommand, LinkPayloadSendReceipt, LinkReply,
};
use crate::counts::{lemma_owned_push, lemma_owned_remove};
use crate::events::{
    lemma_event_views_push, lemma_result_views_push, result_views, DeliveryResult,
    LxmfDeliveryEventKind, ResultView,
};
use crate::keyed::{
    entry_views, has_key, keyed_by, lemma_key_index, lemma_unique_remove,
    lemma_unique_with_entry, unique_keys,
};
use crate::laws::coherence::{lemma_coherent_rotate, lemma_coherent_update};
use crate::laws::rounds::{
    backchannel_round_leaves_sessions, lemma_conclude_coherent, lemma_settle_session_frame,
    lemma_settle_sessions_step,
};
use crate::model::{session_coherent, ManagerState, SessionObservation, StartObservation};
use crate::seqs::lemma_first_where_none;
use crate::session::{
    answer_in, answer_view, read_answer, settle_session, PendingDelivery, SessionView,
};
use crate::types::{
    DeliveryRepresentation, DeliveryState, LinkState, Progress, PROGRESS_PACKET_SENT,
    PROGRESS_RESOURCE_STARTED,
};

verus! {

impl LinkDeliveryManager {
    /// One round of a send command that was taken off the list, given what a look at
    /// its answer channel found, how long it has been waiting in nanoseconds, and what
    /// the clock says.
    pub fn settle_backchannel_start(
        &mut self,
        start: PendingBackchannelStart,
        reply: Poll<BackchannelReply>,
        waited: u128,
        now: Instant,
        results: &mut Vec<DeliveryResult>,
    )
        requires
            old(self).wf(),
            old(self)@.delivery_count() < usize::MAX,
        ensures
            final(self).wf(),
            ({
                let settled = old(self)@.settle_start(
                    start@,
                    StartObservation { reply, waited, now },
                );
                &&& final(self)@ == settled.state
                &&& result_views(final(results)@) == result_views(old(results)@) + settled.results
            }),
    {
        let ghost handed = result_views(results@);
        match reply {
            Poll::Ready(Ok(receipt)) => {
                self.await_proof(start, receipt, now);
                assert(handed + Seq::<ResultView>::empty() =~= handed);
            },
            Poll::Ready(Err(error)) => {
                let reason = error.description();
                self.give_up_start(start, reason, results);
            },
            Poll::Empty => {
                if waited > BACKCHANNEL_SEND_COMMAND_TIMEOUT {
                    self.give_up_start(
                        start,
                        "backchannel send command timeout".to_owned(),
                        results,
                    );
                } else {
                    let ghost kept = self.pending_backchannel_starts@;
                    let ghost again = start@;
                    self.pending_backchannel_starts.push(start);
                    assert(start_views(self.pending_backchannel_starts@) =~= start_views(
                        kept,
                    ).push(again));
                    assert(handed + Seq::<ResultView>::empty() =~= handed);
                }
            },
            Poll::Closed => {
                self.give_up_start(start, "backchannel send command closed".to_owned(), results);
            },
        }
    }

    /// Lets a message that the runtime has sent wait for its proof.
    fn await_proof(
        &mut self,
        start: PendingBackchannelStart,
        receipt: BackchannelSendReceipt,
        now: Instant,
    )
        requires
            old(self).wf(),
            old(self)@.delivery_count() < usize::MAX,
        ensures
            final(self).wf(),
            final(self)@ == old(self)@.receipted(start@, receipt, now),
    {
        let ghost before = self@;
        let ghost after = before.receipted(start@, receipt, now);
        let (key, representation, progress, kind) = match receipt {
            BackchannelSendReceipt::Packet { link_id, packet_hash } => (
                BackchannelProofKey::Packet(link_id, packet_hash),
                DeliveryRepresentation::Packet,
                Progress { bits: PROGRESS_PACKET_SENT },
                LxmfDeliveryEventKind::AwaitingProof,
            ),
            BackchannelSendReceipt::Resource { link_id, resource_hash } => (
                BackchannelProofKey::Resource(link_id, resource_hash),
                DeliveryRepresentation::Resource,
                Progress { bits: PROGRESS_RESOURCE_STARTED },
                LxmfDeliveryEventKind::TransferStarted,
            ),
        };
        let event = backchannel_delivery_event(
            BackchannelDeliveryEventInput {
                kind,
                message: &start.message,
                dest_hash: start.dest_hash,
                link_id: start.link_id,
                representation,
                progress: Some(progress),
                reason: None,
                link_state: LinkState::Active,
                delivery_state: DeliveryState::AwaitingProof,
            },
        );
        proof {
            lemma_event_views_push(self.delivery_events@, event);
            lemma_key_index(before.waits, key);
        }
        self.delivery_events.push_back(event);
        let delivery = PendingBackchannelDelivery {
            message: start.message,
            dest_hash: start.dest_hash,
            link_id: start.link_id,
            representation,
            started_at: now,
        };
        proof {
            lemma_unique_with_entry(before.waits, key, delivery@);
        }
        self.pending_backchannel_deliveries.insert(key, delivery);
        assert(self@ =~= after);
    }

    /// Ends an unanswered send as failed and gives its backchannel up.
    pub(super) fn give_up_start(
        &mut self,
        start: PendingBackchannelStart,
        reason: String,
        results: &mut Vec<DeliveryResult>,
    )
        requires
            old(self).wf(),
        ensures
            final(self).wf(),
            ({
                let failed = old(self)@.fail_start(start@, reason@);
                &&& final(self)@ == failed.state
                &&& result_views(final(results)@) == result_views(old(results)@) + failed.results
            }),
    {
        let _ = self.backchannel_links.remove(&start.dest_hash);
        let (event, result) = fail_backchannel_start(start, reason);
        proof {
            lemma_event_views_push(self.delivery_events@, event);
            lemma_result_views_push(results@, result);
        }
        self.delivery_events.push_back(event);
        results.push(result);
        assert(result_views(results@) =~= result_views(old(results)@) + seq![result@]);
    }

    /// Ends a send that awaits its proof as failed and gives its backchannel up.
    pub(super) fn give_up_wait(
        &mut self,
        delivery: PendingBackchannelDelivery,
        reason: String,
        results: &mut Vec<DeliveryResult>,
    )
        requires
            old(self).wf(),
        ensures
            final(self).wf(),
            ({
                let failed = old(self)@.fail_wait(delivery@, reason@);
                &&& final(self)@ == failed.state
                &&& result_views(final(results)@) == result_views(old(results)@) + failed.results
            }),
    {
        let _ = self.backchannel_links.remove(&delivery.dest_hash);
        let (event, result) = fail_backchannel_delivery(delivery, reason);
        proof {
            lemma_event_views_push(self.delivery_events@, event);
            lemma_result_views_push(results@, result);
        }
        self.delivery_events.push_back(event);
        results.push(result);
        assert(result_views(results@) =~= result_views(old(results)@) + seq![result@]);
    }

    /// Looks at the answers to the send commands.
    fn answer_starts(&mut self, results: &mut Vec<DeliveryResult>)
        requires
            old(self).wf(),
        ensures
            final(self).wf(),
            exists|seen: Seq<StartObservation>|
                {
                    &&& #[trigger] old(self)@.saw_starts(seen)
                    &&& final(self)@ == old(self)@.answered(seen).state
                    &&& result_views(final(results)@) == result_views(old(results)@) + old(
                        self,
                    )@.answered(seen).results
                },
    {
        let ghost before = self@;
        let ghost all = before.starts;
        let ghost cleared = ManagerState { starts: Seq::empty(), ..before };
        let ghost mut seen: Seq<StartObservation> = Seq::empty();
        let mut starts: Vec<PendingBackchannelStart> = Vec::new();
        std::mem::swap(&mut starts, &mut self.pending_backchannel_starts);
        proof {
            assert(start_views(starts@) == all);
            assert(self@ =~= cleared);
            assert(all.take(0) =~= Seq::<StartView>::empty());
            assert(result_views(results@) + Seq::<ResultView>::empty() =~= result_views(results@));
        }
        for start in it: starts
            invariant
                all == before.starts,
                start_views(it.seq()) == all,
                seen.len() == it.index(),
                forall|i: int| 0 <= i < seen.len() ==> (#[trigger] seen[i]).of(all[i]),
                self.wf(),
                self@.delivery_count() + (all.len() - it.index()) <= usize::MAX,
                self@ == cleared.settle_starts(all.take(it.index()), seen).state,
                result_views(results@) == result_views(old(results)@) + cleared.settle_starts(
                    all.take(it.index()),
                    seen,
                ).results,
        {
            let ghost at = it.index();
            let ghost here = start@;
            let ghost former = self@;
            proof {
                assert(start_views(it.seq())[at] == here);
                assert(all.take(at + 1).drop_last() =~= all.take(at));
            }
            let mut start = start;
            let reply = poll_backchannel_reply(&mut start.receiver);
            let waited = match &reply {
                Poll::Empty => elapsed_nanos(&start.requested_at),
                _ => 0,
            };
            let now = Instant::now();
            let ghost look = StartObservation { reply, waited, now };
            self.settle_backchannel_start(start, reply, waited, now, results);
            proof {
                lemma_settle_start_receiver(former, here, start@, look);
                assert(seen.push(look).drop_last() =~= seen);
                seen = seen.push(look);
                lemma_settle_start_count(former, here, look);
            }
            assert(result_views(results@) =~= result_views(old(results)@)
                + cleared.settle_starts(all.take(at + 1), seen).results);
        }
        assert(all.take(all.len() as int) =~= all);
        assert(before.saw_starts(seen));
    }

    /// One round of a send that waits for its proof and was taken off the list, if it
    /// has been waiting for so many nanoseconds.
    pub fn age_backchannel_delivery(
        &mut self,
        key: BackchannelProofKey,
        delivery: PendingBackchannelDelivery,
        age: u128,
        results: &mut Vec<DeliveryResult>,
    )
        requires
            old(self).wf(),
            old(self)@.delivery_count() < usize::MAX,
            !has_key(old(self)@.waits, key),
        ensures
            final(self).wf(),
            ({
                let aged = old(self)@.age_wait((key, delivery@), age);
                &&& final(self)@ == aged.state
                &&& result_views(final(results)@) == result_views(old(results)@) + aged.results
            }),
    {
        let ghost handed = result_views(results@);
        if age > BACKCHANNEL_DELIVERY_TIMEOUT {
            self.give_up_wait(delivery, "backchannel delivery timeout".to_owned(), results);
        } else {
            let ghost kept = self.pending_backchannel_deliveries.entries@;
            let ghost again = (key, delivery@);
            proof {
                lemma_key_index(self@.waits, key);
            }
            self.pending_backchannel_deliveries.entries.push((key, delivery));
            assert(self@.waits =~= entry_views(kept).push(again));
            assert(handed + Seq::<ResultView>::empty() =~= handed);
        }
    }

    /// Gives up the sends that have waited for their proofs for too long.
    fn age_waits(&mut self, results: &mut Vec<DeliveryResult>)
        requires
            old(self).wf(),
        ensures
            final(self).wf(),
            exists|ages: Seq<u128>|
                {
                    &&& #[trigger] old(self)@.saw_waits(ages)
                    &&& final(self)@ == old(self)@.aged(ages).state
                    &&& result_views(final(results)@) == result_views(old(results)@) + old(
                        self,
                    )@.aged(ages).results
                },
    {
        let ghost before = self@;
        let ghost all = before.waits;
        let ghost cleared = ManagerState { waits: Seq::empty(), ..before };
        let ghost mut ages: Seq<u128> = Seq::empty();
        let mut entries: Vec<(BackchannelProofKey, PendingBackchannelDelivery)> = Vec::new();
        std::mem::swap(&mut entries, &mut self.pending_backchannel_deliveries.entries);
        proof {
            assert(entry_views(entries@) == all);
            assert(self@ =~= cleared);
            assert(all.take(0) =~= Seq::<(BackchannelProofKey, ProofWaitView)>::empty());
            assert(result_views(results@) + Seq::<ResultView>::empty() =~= result_views(results@));
        }
        for entry in it: entries
            invariant
                all == before.waits,
                unique_keys(all),
                entry_views(it.seq()) == all,
                ages.len() == it.index(),
                forall|i: int|
                    0 <= i < ages.len() ==> elapsed_read(all[i].1.started_at, #[trigger] ages[i]),
                self.wf(),
                self@.delivery_count() + (all.len() - it.index()) <= usize::MAX,
                forall|j: int|
                    0 <= j < self@.waits.len() ==> all.take(it.index()).contains(
                        #[trigger] self@.waits[j],
                    ),
                self@ == cleared.age_waits(all.take(it.index()), ages).state,
                result_views(results@) == result_views(old(results)@) + cleared.age_waits(
                    all.take(it.index()),
                    ages,
                ).results,
        {
            let ghost at = it.index();
            let ghost here = (entry.0, entry.1@);
            let ghost former = self@;
            proof {
                assert(entry_views(it.seq())[at] == here);
                assert(all.take(at + 1).drop_last() =~= all.take(at));
                assert forall|j: int| 0 <= j < former.waits.len() implies (
                #[trigger] former.waits[j]).0 != here.0 by {
                    let seen = all.take(at);
                    assert(seen.contains(former.waits[j]));
                    let k = choose|k: int| 0 <= k < seen.len() && seen[k] == former.waits[j];
                    assert(all[k].0 != all[at].0);
                }
                lemma_first_where_none(former.waits, keyed_by(here.0));
            }
            let age = elapsed_nanos(&entry.1.started_at);
            self.age_backchannel_delivery(entry.0, entry.1, age, results);
            proof {
                assert(ages.push(age).drop_last() =~= ages);
                ages = ages.push(age);
                assert forall|j: int| 0 <= j < self@.waits.len() implies all.take(at + 1).contains(
                    #[trigger] self@.waits[j],
                ) by {
                    if j < former.waits.len() {
                        assert(self@.waits[j] == former.waits[j]);
                        let seen = all.take(at);
                        assert(seen.contains(former.waits[j]));
                        let k = choose|k: int| 0 <= k < seen.len() && seen[k] == former.waits[j];
                        assert(all.take(at + 1)[k] == self@.waits[j]);
                    } else {
                        assert(all.take(at + 1)[at] == self@.waits[j]);
                    }
                }
            }
            assert(result_views(results@) =~= result_views(old(results)@) + cleared.age_waits(
                all.take(at + 1),
                ages,
            ).results);
        }
        assert(all.take(all.len() as int) =~= all);
        assert(before.saw_waits(ages));
    }

    /// One round of the backchannels.
    fn tick_backchannels(&mut self) -> (results: Vec<DeliveryResult>)
        requires
            old(self).wf(),
        ensures
            final(self).wf(),
            exists|seen: Seq<StartObservation>, ages: Seq<u128>|
                {
                    &&& #[trigger] old(self)@.saw_starts(seen)
                    &&& #[trigger] old(self)@.answered(seen).state.saw_waits(ages)
                    &&& final(self)@ == old(self)@.tick_backchannels(seen, ages).state
                    &&& result_views(results@) == old(self)@.tick_backchannels(seen, ages).results
                },
    {
        let mut results: Vec<DeliveryResult> = Vec::new();
        let ghost before = self@;
        self.answer_starts(&mut results);
        let ghost seen = choose|seen: Seq<StartObservation>|
            {
                &&& #[trigger] before.saw_starts(seen)
                &&& self@ == before.answered(seen).state
                &&& result_views(results@) == result_views(Seq::empty()) + before.answered(
                    seen,
                ).results
            };
        assert(result_views(results@) =~= before.answered(seen).results);
        let ghost middle = self@;
        let ghost handed = result_views(results@);
        self.age_waits(&mut results);
        let ghost ages = choose|ages: Seq<u128>|
            {
                &&& #[trigger] middle.saw_waits(ages)
                &&& self@ == middle.aged(ages).state
                &&& result_views(results@) == handed + middle.aged(ages).results
            };
        assert(before.saw_starts(seen) && before.answered(seen).state.saw_waits(ages));
        results
    }

    /// One round of a session that was taken off the list and has sent what it could,
    /// given the answer that came, if one came, how long the current delivery has been
    /// under way in nanoseconds, and what the clock says.
    pub fn conclude_session(
        &mut self,
        link_id: [u8; 16],
        delivery: PendingDelivery,
        answer: Option<LinkReply>,
        elapsed: u128,
        now: Instant,
        results: &mut Vec<DeliveryResult>,
    )
        requires
            old(self).sound(),
            old(self)@.with_session((link_id, delivery@)).wf(),
        ensures
            final(self).wf(),
            ({
                let concluded = old(self)@.conclude_session(
                    link_id,
                    delivery@,
                    answer_view(answer),
                    elapsed,
                    now,
                );
                &&& final(self)@ == concluded.state
                &&& result_views(final(results)@) == result_views(old(results)@)
                    + concluded.results
            }),
    {
        let ghost before = self@;
        let ghost session = delivery@;
        let ghost settled = session.settle(link_id, answer_view(answer), elapsed, now);
        let mut delivery = delivery;
        let keep = settle_session(
            results,
            &mut self.delivery_events,
            link_id,
            &mut delivery,
            answer,
            elapsed,
            now,
        );
        proof {
            assert(before.sessions + seq![(link_id, session)] + Seq::empty()
                =~= before.sessions.push((link_id, session)));
            lemma_conclude_coherent(
                before,
                link_id,
                session,
                Seq::empty(),
                answer_view(answer),
                elapsed,
                now,
            );
            let after = before.conclude_session(
                link_id,
                session,
                answer_view(answer),
                elapsed,
                now,
            ).state;
            assert(after.sessions + Seq::empty() =~= after.sessions);
            lemma_owned_push(before.sessions, (link_id, session));
        }
        if keep {
            let ghost kept = self.pending.entries@;
            self.pending.entries.push((link_id, delivery));
            proof {
                assert(self@.sessions =~= entry_views(kept).push((link_id, settled.session)));
                lemma_owned_push(before.sessions, (link_id, settled.session));
            }
        } else {
            if delivery.reusable {
                let _ = self.direct_links.remove(&delivery.dest_hash);
            }
            let close = LinkCommand::Close { link_id };
            proof {
                lemma_command_views_push(self.link_commands@, close);
            }
            self.link_commands.push_back(close);
        }
    }

    /// One round of a session that was taken off the list.
    fn advance_session(
        &mut self,
        link_id: [u8; 16],
        delivery: PendingDelivery,
        results: &mut Vec<DeliveryResult>,
    )
        requires
            old(self).sound(),
            old(self)@.with_session((link_id, delivery@)).wf(),
        ensures
            final(self).wf(),
            exists|seen: SessionObservation|
                {
                    &&& #[trigger] delivery@.saw(seen)
                    &&& final(self)@ == old(self)@.settle_session((link_id, delivery@), seen).state
                    &&& result_views(final(results)@) == result_views(old(results)@) + old(
                        self,
                    )@.settle_session((link_id, delivery@), seen).results
                },
    {
        let ghost before = self@;
        let ghost session = delivery@;
        let ghost mut look: SessionObservation = arbitrary();
        let mut delivery = delivery;
        let started = Instant::now();
        proof {
            look = SessionObservation { started, ..look };
        }
        let to_be_sent = if delivery.state == DeliveryState::Idle {
            delivery.start_queued_delivery(started)
        } else {
            delivery.is_unsent()
        };
        assert(to_be_sent == session.to_be_sent(started) is Some);
        if to_be_sent {
            assert(delivery@ == session.to_be_sent(started)->0);
            let (result_tx, receiver) = new_link_answer_channel();
            let launched = Instant::now();
            proof {
                look = SessionObservation { result_tx, receiver, launched, ..look };
            }
            match delivery.launch_current_delivery(result_tx, receiver, launched) {
                Some(command) => {
                    proof {
                        lemma_command_views_push(self.link_commands@, command);
                    }
                    self.link_commands.push_back(command);
                },
                None => {},
            }
        }
        let ghost current = session.launch_waiting(look);
        assert(delivery@ =~= current.session);
        assert(self@ =~= (ManagerState {
            commands: before.commands + current.commands,
            ..before
        }));
        let found = match &mut delivery.runtime_result {
            Some(receiver) => poll_link_reply(receiver),
            None => Poll::Empty,
        };
        let elapsed = elapsed_nanos(&delivery.started_at);
        let now = Instant::now();
        proof {
            look = SessionObservation { found, elapsed, now, ..look };
            assert(session.launch_waiting(look) == current);
            assert(session.saw(look));
            lemma_settle_receiver(
                self@,
                link_id,
                current.session,
                delivery@,
                answer_in(found),
                elapsed,
                now,
            );
            let at = before.sessions.len() as int;
            let with = before.with_session((link_id, session)).sessions;
            assert(with[at] == (link_id, session));
            assert(session_coherent(before.direct_links, with[at]));
            lemma_coherent_update(before.direct_links, with, at, delivery@);
            assert(with.update(at, (link_id, delivery@)) =~= before.sessions.push(
                (link_id, delivery@),
            ));
            lemma_owned_push(before.sessions, (link_id, session));
            lemma_owned_push(before.sessions, (link_id, delivery@));
        }
        let answer = read_answer(found);
        self.conclude_session(link_id, delivery, answer, elapsed, now, results);
    }

    /// One round of the sessions.
    #[verifier::rlimit(40)]
    fn tick_sessions(&mut self, results: &mut Vec<DeliveryResult>)
        requires
            old(self).wf(),
        ensures
            final(self).wf(),
            exists|seen: Seq<SessionObservation>|
                {
                    &&& #[trigger] old(self)@.saw_sessions(seen)
                    &&& final(self)@ == old(self)@.tick_sessions(seen).state
                    &&& result_views(final(results)@) == result_views(old(results)@) + old(
                        self,
                    )@.tick_sessions(seen).results
                },
    {
        let ghost before = self@;
        let ghost all = before.sessions;
        let ghost cleared = ManagerState { sessions: Seq::empty(), ..before };
        let ghost mut seen: Seq<SessionObservation> = Seq::empty();
        let n = self.pending.entries.len();
        let mut k: usize = 0;
        proof {
            assert(all.take(0) =~= Seq::<([u8; 16], SessionView)>::empty());
            assert(all.skip(0) + Seq::<([u8; 16], SessionView)>::empty() =~= all);
            assert(result_views(results@) + Seq::<ResultView>::empty() =~= result_views(results@));
        }
        while k < n
            invariant
                k <= n == all.len(),
                all == before.sessions,
                seen.len() == k,
                forall|i: int| 0 <= i < seen.len() ==> all[i].1.saw(#[trigger] seen[i]),
                self.wf(),
                ({
                    let settled = cleared.settle_sessions(all.take(k as int), seen);
                    &&& self@ == (ManagerState {
                        sessions: all.skip(k as int) + settled.state.sessions,
                        ..settled.state
                    })
                    &&& result_views(results@) == result_views(old(results)@) + settled.results
                }),
            decreases n - k,
        {
            let ghost at = k as int;
            let ghost here = all[at];
            let ghost settled = cleared.settle_sessions(all.take(at), seen).state;
            let ghost former = self@;
            let ghost handed = result_views(results@);
            proof {
                assert(former.sessions[0] == here);
                assert(former.sessions.remove(0) =~= all.skip(at + 1) + settled.sessions);
                lemma_unique_remove(former.sessions, 0);
                lemma_owned_remove(former.sessions, 0);
                lemma_owned_push(former.sessions.remove(0), here);
                lemma_coherent_rotate(former.direct_links, former.sessions);
            }
            let (link_id, delivery) = self.pending.remove_at(0);
            let ghost taken = self@;
            self.advance_session(link_id, delivery, results);
            proof {
                let look = choose|look: SessionObservation|
                    {
                        &&& #[trigger] here.1.saw(look)
                        &&& self@ == taken.settle_session(here, look).state
                        &&& result_views(results@) == handed + taken.settle_session(
                            here,
                            look,
                        ).results
                    };
                lemma_settle_sessions_step(cleared, all, at, seen, look);
                lemma_settle_session_frame(settled, all.skip(at + 1), here, look);
                seen = seen.push(look);
            }
            assert(result_views(results@) =~= result_views(old(results)@)
                + cleared.settle_sessions(all.take(at + 1), seen).results);
            k += 1;
        }
        proof {
            let after = cleared.settle_sessions(all, seen).state;
            assert(all.take(n as int) =~= all);
            assert(all.skip(n as int) + after.sessions =~= after.sessions);
            assert(before.saw_sessions(seen));
        }
    }

    /// Drives pending deliveries forward; to be called periodically after
    /// [`Self::drain_events`]. The round is the one that follows from what the answer
    /// channels and the clock showed.
    pub fn tick(&mut self) -> (results: Vec<DeliveryResult>)
        requires
            old(self).wf(),
        ensures
            final(self).wf(),
            exists|
                starts_seen: Seq<StartObservation>,
                ages: Seq<u128>,
                sessions_seen: Seq<SessionObservation>,
            |
                {
                    &&& #[trigger] old(self)@.saw(starts_seen, ages, sessions_seen)
                    &&& final(self)@ == old(self)@.tick(starts_seen, ages, sessions_seen).state
                    &&& result_views(results@) == old(self)@.tick(
                        starts_seen,
                        ages,
                        sessions_seen,
                    ).results
                },
    {
        let ghost before = self@;
        let mut results = self.tick_backchannels();
        let ghost (starts_seen, ages) = choose|seen: Seq<StartObservation>, ages: Seq<u128>|
            {
                &&& #[trigger] before.saw_starts(seen)
                &&& #[trigger] before.answered(seen).state.saw_waits(ages)
                &&& self@ == before.tick_backchannels(seen, ages).state
                &&& result_views(results@) == before.tick_backchannels(seen, ages).results
            };
        let ghost middle = self@;
        let ghost handed = result_views(results@);
        proof {
            backchannel_round_leaves_sessions(before, starts_seen, ages);
        }
        self.tick_sessions(&mut results);
        let ghost sessions_seen = choose|seen: Seq<SessionObservation>|
            {
                &&& #[trigger] middle.saw_sessions(seen)
                &&& self@ == middle.tick_sessions(seen).state
                &&& result_views(results@) == handed + middle.tick_sessions(seen).results
            };
        assert(before.saw(starts_seen, ages, sessions_seen));
        results
    }
}

/// Only a send that goes on waiting keeps its receiver.
proof fn lemma_settle_start_receiver(
    state: ManagerState,
    start: StartView,
    looked: StartView,
    seen: StartObservation,
)
    requires
        looked == (StartView { receiver: looked.receiver, ..start }),
        seen.reply is Empty ==> looked == start,
    ensures
        state.settle_start(looked, seen) == state.settle_start(start, seen),
{
}

/// Looking at the answer channel changes nothing but the channel, and that only where
/// something was there.
proof fn lemma_settle_receiver(
    state: ManagerState,
    link_id: [u8; 16],
    session: SessionView,
    looked: SessionView,
    answer: Option<Result<LinkPayloadSendReceipt, Seq<char>>>,
    elapsed: u128,
    now: Instant,
)
    requires
        looked == (SessionView { runtime_result: looked.runtime_result, ..session }),
        answer is None ==> looked == session,
    ensures
        state.conclude_session(link_id, looked, answer, elapsed, now) == state.conclude_session(
            link_id,
            session,
            answer,
            elapsed,
            now,
        ),
        looked.owned() == session.owned(),
{
    match answer {
        Some(Ok(receipt)) => {
            assert(looked.delivered(receipt) =~= session.delivered(receipt));
        },
        Some(Err(reason)) => {
            let closed = SessionView {
                link_state: LinkState::Closed,
                runtime_result: None,
                ..session
            };
            assert(closed =~= (SessionView {
                link_state: LinkState::Closed,
                runtime_result: None,
                ..looked
            }));
        },
        None => {},
    }
}

/// A settled start is counted at most once.
proof fn lemma_settle_start_count(state: ManagerState, start: StartView, seen: StartObservation)
    ensures
        state.settle_start(start, seen).state.delivery_count() <= state.delivery_count() + 1,
{
    if let Poll::Ready(Ok(receipt)) = seen.reply {
        let key = match receipt {
            BackchannelSendReceipt::Packet { link_id, packet_hash } => BackchannelProofKey::Packet(
                link_id,
                packet_hash,
            ),
            BackchannelSendReceipt::Resource {
                link_id,
                resource_hash,
            } => BackchannelProofKey::Resource(link_id, resource_hash),
        };
        lemma_key_index(state.waits, key);
    }
}

} // verus!
