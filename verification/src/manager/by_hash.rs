//! Ending deliveries by the hash of their message.

use vstd::prelude::*;

use super::LinkDeliveryManager;
use crate::commands::{lemma_command_views_push, LinkCommand};
use crate::counts::{lemma_owned_remove, lemma_owned_update};
use crate::events::{
    lemma_event_views_push, lemma_result_views_push, result_views, DeliveryResult,
    ResultView,
};
use crate::keyed::lemma_unique_remove;
use crate::laws::coherence::{ending_by_hash_keeps_coherence, lemma_without_queued_coherent};
use crate::model::{holding, start_of, wait_of, ManagerState};
use crate::queue::QueuedDelivery;
use crate::seqs::{lemma_first_where_is, lemma_first_where_none};
use crate::session::{push_failed_delivery_and_queue, queued_delivery_event, SessionView};
use crate::types::{hash_is, same_bytes};

verus! {

impl LinkDeliveryManager {
    /// Where the first session stands that holds a message with this hash.
    fn session_holding(&self, msg_hash: [u8; 32]) -> (at: Option<usize>)
        ensures
            match at {
                Some(i) => {
                    &&& i < self.pending.entries.len()
                    &&& self@.session_holding(msg_hash) == Some(i as int)
                    &&& self@.sessions[i as int].1.holds(msg_hash)
                },
                None => self@.session_holding(msg_hash) is None,
            },
    {
        let mut i: usize = 0;
        while i < self.pending.entries.len()
            invariant
                i <= self.pending.entries.len(),
                forall|j: int| 0 <= j < i ==> !(#[trigger] self@.sessions[j]).1.holds(msg_hash),
            decreases self.pending.entries.len() - i,
        {
            let delivery = &self.pending.entries[i].1;
            assert(self@.sessions[i as int].1 == delivery@);
            if hash_is(&delivery.msg_hash, &msg_hash) || delivery.queue.position_by_hash(
                msg_hash,
            ).is_some() {
                proof {
                    lemma_first_where_is(self@.sessions, holding(msg_hash), i as int);
                }
                return Some(i);
            }
            i += 1;
        }
        proof {
            lemma_first_where_none(self@.sessions, holding(msg_hash));
        }
        None
    }

    /// Where the first unanswered send of a message with this hash stands.
    pub(super) fn start_holding(&self, msg_hash: [u8; 32]) -> (at: Option<usize>)
        ensures
            match at {
                Some(i) => {
                    &&& i < self.pending_backchannel_starts.len()
                    &&& self@.start_holding(msg_hash) == Some(i as int)
                },
                None => self@.start_holding(msg_hash) is None,
            },
    {
        let mut i: usize = 0;
        while i < self.pending_backchannel_starts.len()
            invariant
                i <= self.pending_backchannel_starts.len(),
                forall|j: int|
                    0 <= j < i ==> (#[trigger] self@.starts[j]).message.hash != Some(msg_hash),
            decreases self.pending_backchannel_starts.len() - i,
        {
            assert(self@.starts[i as int] == self.pending_backchannel_starts@[i as int]@);
            if hash_is(&self.pending_backchannel_starts[i].message.hash, &msg_hash) {
                proof {
                    lemma_first_where_is(self@.starts, start_of(msg_hash), i as int);
                }
                return Some(i);
            }
            i += 1;
        }
        proof {
            lemma_first_where_none(self@.starts, start_of(msg_hash));
        }
        None
    }

    /// Where the first send of a message with this hash stands that waits for its
    /// proof.
    pub(super) fn wait_holding(&self, msg_hash: [u8; 32]) -> (at: Option<usize>)
        ensures
            match at {
                Some(i) => {
                    &&& i < self.pending_backchannel_deliveries.entries.len()
                    &&& self@.wait_holding(msg_hash) == Some(i as int)
                },
                None => self@.wait_holding(msg_hash) is None,
            },
    {
        let mut i: usize = 0;
        while i < self.pending_backchannel_deliveries.entries.len()
            invariant
                i <= self.pending_backchannel_deliveries.entries.len(),
                forall|j: int|
                    0 <= j < i ==> (#[trigger] self@.waits[j]).1.message.hash != Some(msg_hash),
            decreases self.pending_backchannel_deliveries.entries.len() - i,
        {
            let delivery = &self.pending_backchannel_deliveries.entries[i].1;
            assert(self@.waits[i as int].1 == delivery@);
            if hash_is(&delivery.message.hash, &msg_hash) {
                proof {
                    lemma_first_where_is(self@.waits, wait_of(msg_hash), i as int);
                }
                return Some(i);
            }
            i += 1;
        }
        proof {
            lemma_first_where_none(self@.waits, wait_of(msg_hash));
        }
        None
    }

    /// Forgets the cached link to a destination, if it is this one.
    fn forget_direct_link(&mut self, dest_hash: [u8; 16], link_id: [u8; 16])
        requires
            old(self).sound(),
        ensures
            final(self).sound(),
            final(self).pending == old(self).pending,
            final(self)@ == (ManagerState {
                direct_links: if old(self)@.direct_links.contains_key(dest_hash)
                    && old(self)@.direct_links[dest_hash] == link_id {
                    old(self)@.direct_links.remove(dest_hash)
                } else {
                    old(self)@.direct_links
                },
                ..old(self)@
            }),
    {
        if let Some(cached) = self.direct_links.get(&dest_hash) {
            if same_bytes(&cached, &link_id) {
                let _ = self.direct_links.remove(&dest_hash);
            }
        }
    }

    /// Takes the message at a place of the queue of a session out.
    fn take_queued(&mut self, i: usize, at: usize) -> (queued: Option<QueuedDelivery>)
        requires
            old(self).wf(),
            i < old(self).pending.entries.len(),
            at < old(self)@.sessions[i as int].1.queue.len(),
        ensures
            final(self).wf(),
            final(self)@ == old(self)@.without_queued(i as int, at as int),
            queued matches Some(queued) && queued@ == old(
                self,
            )@.sessions[i as int].1.queue[at as int],
    {
        let ghost before = self@;
        let ghost session = before.sessions[i as int].1;
        let ghost shorter = (
            before.sessions[i as int].0,
            SessionView { queue: session.queue.remove(at as int), ..session },
        );
        assert(session == self.pending.entries@[i as int].1@);
        proof {
            lemma_owned_update(before.sessions, i as int, shorter);
            lemma_without_queued_coherent(before, i as int, at as int);
        }
        let queue = &mut self.pending.entries[i].1.queue;
        let taken = queue.remove(at);
        assert(self@.sessions =~= before.sessions.update(i as int, shorter));
        assert(self@ =~= before.without_queued(i as int, at as int));
        taken
    }

    /// Fails the delivery of a message by its hash. Where it is the current one of a
    /// session, the session fails with everything that waits.
    pub fn fail_delivery_by_message_hash(&mut self, msg_hash: [u8; 32], reason: &str) -> (results:
        Vec<DeliveryResult>)
        requires
            old(self).wf(),
        ensures
            final(self).wf(),
            final(self)@ == old(self)@.fail_by_hash(msg_hash, reason@).state,
            result_views(results@) == old(self)@.fail_by_hash(msg_hash, reason@).results,
    {
        let ghost before = self@;
        let mut results: Vec<DeliveryResult> = Vec::new();
        assert(result_views(results@) =~= Seq::<ResultView>::empty());
        if let Some(i) = self.session_holding(msg_hash) {
            let link_id = self.pending.entries[i].0;
            let dest_hash = self.pending.entries[i].1.dest_hash;
            let ghost session = before.sessions[i as int].1;
            assert(session == self.pending.entries@[i as int].1@);
            if hash_is(&self.pending.entries[i].1.msg_hash, &msg_hash) {
                proof {
                    lemma_unique_remove(before.sessions, i as int);
                    lemma_owned_remove(before.sessions, i as int);
                }
                let (_, mut delivery) = self.pending.remove_at(i);
                push_failed_delivery_and_queue(
                    &mut results,
                    &mut self.delivery_events,
                    link_id,
                    &mut delivery,
                    reason,
                );
                self.forget_direct_link(dest_hash, link_id);
                proof {
                    assert(result_views(results@) =~= session.failed_results(link_id, reason@));
                    assert(self@ =~= before.fail_by_hash(msg_hash, reason@).state);
                    ending_by_hash_keeps_coherence(before, msg_hash, reason@);
                }
            } else {
                if let Some(at) = self.pending.entries[i].1.queue.position_by_hash(msg_hash) {
                    if let Some(queued) = self.take_queued(i, at) {
                        let event = queued_delivery_event(link_id, dest_hash, &queued, reason);
                        let result = DeliveryResult::Failed {
                            link_id,
                            msg_hash: queued.msg_hash,
                            dest_hash,
                            message: queued.message,
                            reason: reason.to_owned(),
                        };
                        proof {
                            lemma_event_views_push(self.delivery_events@, event);
                            lemma_result_views_push(results@, result);
                        }
                        self.delivery_events.push_back(event);
                        results.push(result);
                        proof {
                            assert(result_views(results@) =~= seq![result@]);
                            assert(self@ =~= before.fail_by_hash(msg_hash, reason@).state);
                        }
                    }
                }
            }
            return results;
        }
        if let Some(i) = self.start_holding(msg_hash) {
            let start = self.pending_backchannel_starts.remove(i);
            assert(self@ =~= (ManagerState { starts: before.starts.remove(i as int), ..before }));
            self.give_up_start(start, reason.to_owned(), &mut results);
            assert(result_views(results@) =~= before.fail_by_hash(msg_hash, reason@).results);
            return results;
        }
        if let Some(i) = self.wait_holding(msg_hash) {
            proof {
                lemma_unique_remove(before.waits, i as int);
            }
            let (_, delivery) = self.pending_backchannel_deliveries.remove_at(i);
            assert(self@ =~= (ManagerState { waits: before.waits.remove(i as int), ..before }));
            self.give_up_wait(delivery, reason.to_owned(), &mut results);
            assert(result_views(results@) =~= before.fail_by_hash(msg_hash, reason@).results);
        }
        results
    }

    /// Cancels the delivery of a message by its hash, without event and result. Says
    /// whether there was one.
    pub fn cancel_delivery_by_message_hash(&mut self, msg_hash: [u8; 32]) -> (cancelled: bool)
        requires
            old(self).wf(),
        ensures
            final(self).wf(),
            cancelled == old(self)@.holds(msg_hash),
            final(self)@ == old(self)@.cancel_by_hash(msg_hash),
    {
        let ghost before = self@;
        if let Some(i) = self.session_holding(msg_hash) {
            let link_id = self.pending.entries[i].0;
            let dest_hash = self.pending.entries[i].1.dest_hash;
            let ghost session = before.sessions[i as int].1;
            assert(session == self.pending.entries@[i as int].1@);
            if hash_is(&self.pending.entries[i].1.msg_hash, &msg_hash) {
                proof {
                    lemma_unique_remove(before.sessions, i as int);
                    lemma_owned_remove(before.sessions, i as int);
                }
                let _ = self.pending.remove_at(i);
                // The link is closed when the delivery is cancelled, and once more when
                // its session is dropped.
                let cancel = LinkCommand::Close { link_id };
                let drop = LinkCommand::Close { link_id };
                proof {
                    lemma_command_views_push(self.link_commands@, cancel);
                    lemma_command_views_push(self.link_commands@.push(cancel), drop);
                }
                self.link_commands.push_back(cancel);
                self.link_commands.push_back(drop);
                self.forget_direct_link(dest_hash, link_id);
                proof {
                    assert(self@ =~= before.cancel_by_hash(msg_hash));
                    ending_by_hash_keeps_coherence(before, msg_hash, Seq::empty());
                }
            } else {
                if let Some(at) = self.pending.entries[i].1.queue.position_by_hash(msg_hash) {
                    let _ = self.take_queued(i, at);
                }
            }
            return true;
        }
        if let Some(i) = self.start_holding(msg_hash) {
            let _ = self.pending_backchannel_starts.remove(i);
            assert(self@ =~= before.cancel_by_hash(msg_hash));
            return true;
        }
        if let Some(i) = self.wait_holding(msg_hash) {
            proof {
                lemma_unique_remove(before.waits, i as int);
            }
            let _ = self.pending_backchannel_deliveries.remove_at(i);
            assert(self@ =~= before.cancel_by_hash(msg_hash));
            return true;
        }
        false
    }
}

} // verus!
