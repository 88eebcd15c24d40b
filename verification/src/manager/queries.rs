//! What can be asked of the manager.

use vstd::prelude::*;

use super::LinkDeliveryManager;
use crate::counts::{
    lemma_owned_bounds, lemma_owned_parts, lemma_owned_step, lemma_starts_to_step,
    lemma_stats_none, lemma_stats_step, lemma_waits_to_step,
};
use crate::keyed::has_key;
use crate::model::{
    active_among, carrying, establishing_among, idle_among, in_flight_by, one_shot_among, owned_by,
    queued_by, reusable_among, starts_to, waits_to,
};
use crate::reports::{
    BackchannelLinkSnapshot, DirectLinkSnapshot, LinkDeliveryStats, MessageDeliverySnapshot,
};
use crate::seqs::{lemma_first_where_is, lemma_first_where_none};
use crate::session::SessionView;
use crate::types::{hash_is, same_bytes, DeliveryRepresentation, DeliveryState, LinkState};

verus! {

impl LinkDeliveryManager {
    /// How many outbound sessions there are.
    pub fn session_count(&self) -> (n: usize)
        ensures
            n == self@.sessions.len(),
    {
        self.pending.len()
    }

    /// Whether a link still has its session.
    pub fn has_session(&self, link_id: &[u8; 16]) -> (found: bool)
        ensures
            found == has_key(self@.sessions, *link_id),
    {
        self.pending.position(link_id).is_some()
    }

    /// How many deliveries are under way or wait.
    pub fn pending_count(&self) -> (n: usize)
        requires
            self.wf(),
        ensures
            n == self@.delivery_count(),
    {
        let ghost sessions = self@.sessions;
        let mut count: usize = 0;
        let mut i: usize = 0;
        assert(sessions.take(0) =~= Seq::<([u8; 16], SessionView)>::empty());
        while i < self.pending.entries.len()
            invariant
                i <= self.pending.entries.len(),
                sessions == self@.sessions,
                owned_by(sessions) <= usize::MAX,
                count == owned_by(sessions.take(i as int)),
            decreases self.pending.entries.len() - i,
        {
            let delivery = &self.pending.entries[i].1;
            proof {
                assert(sessions[i as int].1 == delivery@);
                lemma_owned_bounds(sessions, i as int);
                lemma_owned_step(sessions, i as int);
            }
            count += delivery.active_delivery_count();
            i += 1;
        }
        assert(sessions.take(i as int) =~= sessions);
        count + self.pending_backchannel_starts.len() + self.pending_backchannel_deliveries.len()
    }

    /// What can be said of a message that is being delivered.
    pub fn message_delivery_snapshot(&self, msg_hash: [u8; 32]) -> (snapshot: Option<
        MessageDeliverySnapshot,
    >)
        requires
            self.wf(),
        ensures
            match snapshot {
                Some(snapshot) => self@.message_snapshot(msg_hash) == Some(snapshot@),
                None => self@.message_snapshot(msg_hash) is None,
            },
    {
        let mut i: usize = 0;
        while i < self.pending.entries.len()
            invariant
                self.wf(),
                i <= self.pending.entries.len(),
                forall|j: int| 0 <= j < i ==> !(#[trigger] self@.sessions[j]).1.carries(msg_hash),
            decreases self.pending.entries.len() - i,
        {
            let link_id = self.pending.entries[i].0;
            let delivery = &self.pending.entries[i].1;
            proof {
                assert(self@.sessions[i as int] == (link_id, delivery@));
                lemma_owned_bounds(self@.sessions, i as int);
            }
            let in_flight_deliveries = delivery.active_delivery_count();
            if delivery.state != DeliveryState::Idle && hash_is(&delivery.msg_hash, &msg_hash) {
                proof {
                    lemma_first_where_is(self@.sessions, carrying(msg_hash), i as int);
                }
                return Some(
                    MessageDeliverySnapshot {
                        link_id,
                        dest_hash: delivery.dest_hash,
                        link_state: delivery.link.state(),
                        delivery_state: delivery.state,
                        representation: delivery.message.representation,
                        progress: delivery.message.progress,
                        queued: false,
                        queued_deliveries: delivery.queue.len(),
                        in_flight_deliveries,
                    },
                );
            }
            if let Some(at) = delivery.queue.position_by_hash(msg_hash) {
                proof {
                    lemma_first_where_is(self@.sessions, carrying(msg_hash), i as int);
                }
                if let Some(queued) = delivery.queue.get(at) {
                    return Some(
                        MessageDeliverySnapshot {
                            link_id,
                            dest_hash: delivery.dest_hash,
                            link_state: delivery.link.state(),
                            delivery_state: delivery.state,
                            representation: queued.message.representation,
                            progress: queued.message.progress,
                            queued: true,
                            queued_deliveries: delivery.queue.len(),
                            in_flight_deliveries,
                        },
                    );
                }
            }
            i += 1;
        }
        proof {
            lemma_first_where_none(self@.sessions, carrying(msg_hash));
        }
        if let Some(at) = self.start_holding(msg_hash) {
            let start = &self.pending_backchannel_starts[at];
            assert(self@.starts[at as int] == start@);
            return Some(
                MessageDeliverySnapshot {
                    link_id: start.link_id,
                    dest_hash: start.dest_hash,
                    link_state: LinkState::Active,
                    delivery_state: DeliveryState::Transferring,
                    representation: DeliveryRepresentation::Unknown,
                    progress: start.message.progress,
                    queued: true,
                    queued_deliveries: 1,
                    in_flight_deliveries: 0,
                },
            );
        }
        if let Some(at) = self.wait_holding(msg_hash) {
            let (key, delivery) = &self.pending_backchannel_deliveries.entries[at];
            assert(self@.waits[at as int] == (*key, delivery@));
            return Some(
                MessageDeliverySnapshot {
                    link_id: key.link_id(),
                    dest_hash: delivery.dest_hash,
                    link_state: LinkState::Active,
                    delivery_state: DeliveryState::AwaitingProof,
                    representation: delivery.representation,
                    progress: delivery.message.progress,
                    queued: false,
                    queued_deliveries: 0,
                    in_flight_deliveries: 1,
                },
            );
        }
        None
    }

    /// Whether a message to a destination would find a link, if the cached link has
    /// been idle for so many nanoseconds.
    pub fn delivery_link_available_after(&self, dest_hash: &[u8; 16], idle: u128) -> (available:
        bool)
        requires
            self.wf(),
        ensures
            available == self@.link_available(*dest_hash, idle),
    {
        let direct = match self.direct_links.get(dest_hash) {
            Some(link_id) => match self.pending.get(&link_id) {
                Some(delivery) => delivery.reusable && delivery.link.state() != LinkState::Closed
                    && !delivery.direct_link_idle_expired(idle),
                None => false,
            },
            None => false,
        };
        direct || self.backchannel_links.contains(dest_hash)
    }

    /// Whether a message to a destination would find a link now.
    pub fn delivery_link_available(&self, dest_hash: &[u8; 16]) -> (available: bool)
        requires
            self.wf(),
        ensures
            exists|idle: u128|
                {
                    &&& #[trigger] self@.idle_read(*dest_hash, idle)
                    &&& available == self@.link_available(*dest_hash, idle)
                },
    {
        let idle = self.cached_link_idle(dest_hash);
        self.delivery_link_available_after(dest_hash, idle)
    }

    /// What can be said of the cached link to a destination, if it has been idle for so
    /// many nanoseconds.
    pub fn direct_link_snapshot_after(&self, dest_hash: [u8; 16], idle: u128) -> (snapshot: Option<
        DirectLinkSnapshot,
    >)
        requires
            self.wf(),
        ensures
            match snapshot {
                Some(snapshot) => self@.link_snapshot(dest_hash, idle) == Some(snapshot@),
                None => self@.link_snapshot(dest_hash, idle) is None,
            },
    {
        match self.direct_links.get(&dest_hash) {
            Some(link_id) => match self.pending.get(&link_id) {
                Some(delivery) => Some(
                    DirectLinkSnapshot {
                        link_id,
                        dest_hash,
                        link_state: delivery.link.state(),
                        delivery_state: delivery.state,
                        idle_expired: delivery.direct_link_idle_expired(idle),
                        queued_deliveries: delivery.queue.len(),
                        in_flight_deliveries: delivery.in_flight_count(),
                    },
                ),
                None => None,
            },
            None => None,
        }
    }

    /// What can be said of the cached link to a destination now.
    pub fn direct_link_snapshot(&self, dest_hash: [u8; 16]) -> (snapshot: Option<
        DirectLinkSnapshot,
    >)
        requires
            self.wf(),
        ensures
            exists|idle: u128|
                {
                    &&& #[trigger] self@.idle_read(dest_hash, idle)
                    &&& match snapshot {
                        Some(snapshot) => self@.link_snapshot(dest_hash, idle) == Some(snapshot@),
                        None => self@.link_snapshot(dest_hash, idle) is None,
                    }
                },
    {
        let idle = self.cached_link_idle(&dest_hash);
        self.direct_link_snapshot_after(dest_hash, idle)
    }

    /// What can be said of the backchannel to a destination.
    pub fn backchannel_link_snapshot(&self, dest_hash: [u8; 16]) -> (snapshot: Option<
        BackchannelLinkSnapshot,
    >)
        requires
            self.wf(),
        ensures
            match snapshot {
                Some(snapshot) => self@.backchannel_snapshot(dest_hash) == Some(snapshot@),
                None => self@.backchannel_snapshot(dest_hash) is None,
            },
    {
        match self.backchannel_links.get(&dest_hash) {
            Some(link_id) => Some(
                BackchannelLinkSnapshot {
                    link_id,
                    dest_hash,
                    queued_deliveries: self.starts_to(dest_hash),
                    in_flight_deliveries: self.waits_to(dest_hash),
                },
            ),
            None => None,
        }
    }

    /// How many unanswered sends go to a destination.
    fn starts_to(&self, dest_hash: [u8; 16]) -> (n: usize)
        ensures
            n == starts_to(self@.starts, dest_hash),
    {
        let ghost starts = self@.starts;
        let mut n: usize = 0;
        let mut i: usize = 0;
        proof {
            reveal(Seq::filter);
        }
        while i < self.pending_backchannel_starts.len()
            invariant
                i <= self.pending_backchannel_starts.len(),
                starts == self@.starts,
                n <= i,
                n == starts_to(starts.take(i as int), dest_hash),
            decreases self.pending_backchannel_starts.len() - i,
        {
            let start = &self.pending_backchannel_starts[i];
            proof {
                assert(starts[i as int] == start@);
                lemma_starts_to_step(starts, dest_hash, i as int);
            }
            if same_bytes(&start.dest_hash, &dest_hash) {
                n += 1;
            }
            i += 1;
        }
        assert(starts.take(i as int) =~= starts);
        n
    }

    /// How many sends to a destination wait for their proofs.
    fn waits_to(&self, dest_hash: [u8; 16]) -> (n: usize)
        ensures
            n == waits_to(self@.waits, dest_hash),
    {
        let ghost waits = self@.waits;
        let mut n: usize = 0;
        let mut i: usize = 0;
        proof {
            reveal(Seq::filter);
        }
        while i < self.pending_backchannel_deliveries.entries.len()
            invariant
                i <= self.pending_backchannel_deliveries.entries.len(),
                waits == self@.waits,
                n <= i,
                n == waits_to(waits.take(i as int), dest_hash),
            decreases self.pending_backchannel_deliveries.entries.len() - i,
        {
            let delivery = &self.pending_backchannel_deliveries.entries[i].1;
            proof {
                assert(waits[i as int].1 == delivery@);
                lemma_waits_to_step(waits, dest_hash, i as int);
            }
            if same_bytes(&delivery.dest_hash, &dest_hash) {
                n += 1;
            }
            i += 1;
        }
        assert(waits.take(i as int) =~= waits);
        n
    }

    /// The aggregate numbers.
    pub fn stats(&self) -> (stats: LinkDeliveryStats)
        requires
            self.wf(),
        ensures
            stats@ == self@.stats(),
    {
        let ghost sessions = self@.sessions;
        let mut stats = LinkDeliveryStats::default();
        stats.sessions = self.pending.len();
        stats.backchannel_sessions = self.backchannel_links.len();
        stats.pending_backchannel_starts = self.pending_backchannel_starts.len();
        stats.pending_backchannel_deliveries = self.pending_backchannel_deliveries.len();
        let mut i: usize = 0;
        proof {
            lemma_stats_none(sessions.take(0));
            lemma_owned_parts(sessions);
        }
        while i < self.pending.entries.len()
            invariant
                self.wf(),
                i <= self.pending.entries.len(),
                sessions == self@.sessions,
                owned_by(sessions) <= usize::MAX,
                stats.sessions == sessions.len(),
                stats.backchannel_sessions == self@.backchannel_links.dom().len(),
                stats.pending_backchannel_starts == self@.starts.len(),
                stats.pending_backchannel_deliveries == self@.waits.len(),
                stats.direct_sessions == reusable_among(sessions.take(i as int)) <= i,
                stats.one_shot_sessions == one_shot_among(sessions.take(i as int)) <= i,
                stats.establishing_direct_sessions == establishing_among(sessions.take(i as int))
                    <= i,
                stats.active_direct_sessions == active_among(sessions.take(i as int)) <= i,
                stats.idle_direct_sessions == idle_among(sessions.take(i as int)) <= i,
                stats.queued_deliveries == queued_by(sessions.take(i as int)),
                stats.in_flight_deliveries == in_flight_by(sessions.take(i as int)),
            decreases self.pending.entries.len() - i,
        {
            let delivery = &self.pending.entries[i].1;
            proof {
                assert(sessions[i as int].1 == delivery@);
                lemma_stats_step(sessions, i as int);
                lemma_owned_step(sessions, i as int);
                lemma_owned_parts(sessions.take(i + 1));
            }
            stats.queued_deliveries += delivery.queue.len();
            if delivery.state != DeliveryState::Idle {
                stats.in_flight_deliveries += 1;
            }
            if delivery.reusable {
                stats.direct_sessions += 1;
                if delivery.state == DeliveryState::Establishing {
                    stats.establishing_direct_sessions += 1;
                }
                if delivery.link.is_active() {
                    stats.active_direct_sessions += 1;
                }
                if delivery.state == DeliveryState::Idle {
                    stats.idle_direct_sessions += 1;
                }
            } else {
                stats.one_shot_sessions += 1;
            }
            i += 1;
        }
        assert(sessions.take(i as int) =~= sessions);
        stats.queued_deliveries += self.pending_backchannel_starts.len();
        stats.in_flight_deliveries += self.pending_backchannel_deliveries.len();
        stats
    }
}

} // verus!
