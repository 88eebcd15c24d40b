//! Messages waiting for a reusable Direct link.

use std::collections::VecDeque;
use vstd::prelude::*;

use crate::message::{LxMessage, LxMessageView};
use crate::seqs::{first_where, lemma_first_where_is, lemma_first_where_none};
use crate::types::{bytes_of, hash_is};

verus! {

/// Message payload waiting for an existing Direct link to become active or idle.
pub struct QueuedDelivery {
    pub message: LxMessage,
    pub packed_override: Option<Vec<u8>>,
    pub auto_compress: bool,
    pub msg_hash: Option<[u8; 32]>,
}

/// The mathematical content of a [`QueuedDelivery`].
#[verifier::ext_equal]
pub struct QueuedView {
    pub message: LxMessageView,
    pub packed_override: Option<Seq<u8>>,
    pub auto_compress: bool,
    pub msg_hash: Option<[u8; 32]>,
}

impl View for QueuedDelivery {
    type V = QueuedView;

    open spec fn view(&self) -> QueuedView {
        QueuedView {
            message: self.message@,
            packed_override: bytes_of(self.packed_override),
            auto_compress: self.auto_compress,
            msg_hash: self.msg_hash,
        }
    }
}

impl QueuedView {
    /// A message as it enters the queue: found by the hash it has then.
    pub open spec fn of(
        message: LxMessageView,
        packed_override: Option<Seq<u8>>,
        auto_compress: bool,
    ) -> Self {
        QueuedView { message, packed_override, auto_compress, msg_hash: message.hash }
    }
}

impl QueuedDelivery {
    /// A message as it enters the queue.
    pub fn new(message: LxMessage, packed_override: Option<Vec<u8>>, auto_compress: bool) -> (queued:
        Self)
        ensures
            queued@ == QueuedView::of(message@, bytes_of(packed_override), auto_compress),
    {
        let msg_hash = message.hash;
        QueuedDelivery { message, packed_override, auto_compress, msg_hash }
    }
}

/// The contents of a list of waiting messages.
pub open spec fn queued_views(queue: Seq<QueuedDelivery>) -> Seq<QueuedView> {
    queue.map_values(|queued: QueuedDelivery| queued@)
}

/// What a waiting message with this hash has.
pub open spec fn queued_as(msg_hash: [u8; 32]) -> spec_fn(QueuedView) -> bool {
    |queued: QueuedView| queued.msg_hash == Some(msg_hash)
}

/// Where the first message with a hash waits, if one does.
pub open spec fn queued_index(queue: Seq<QueuedView>, msg_hash: [u8; 32]) -> Option<int> {
    first_where(queue, queued_as(msg_hash))
}

/// First-in first-out policy for messages sharing one reusable Direct link.
///
/// The queue knows nothing of links or transfers.
pub struct DirectDeliveryQueue {
    pending: VecDeque<QueuedDelivery>,
}

impl View for DirectDeliveryQueue {
    type V = Seq<QueuedView>;

    closed spec fn view(&self) -> Seq<QueuedView> {
        queued_views(self.pending@)
    }
}

impl DirectDeliveryQueue {
    /// An empty queue.
    pub fn new() -> (queue: Self)
        ensures
            queue@ == Seq::<QueuedView>::empty(),
    {
        let queue = DirectDeliveryQueue { pending: VecDeque::new() };
        assert(queue@ =~= Seq::<QueuedView>::empty());
        queue
    }

    /// How many messages wait.
    pub fn len(&self) -> (n: usize)
        ensures
            n == self@.len(),
    {
        self.pending.len()
    }

    /// Whether no message waits.
    pub fn is_empty(&self) -> (empty: bool)
        ensures
            empty == (self@.len() == 0),
    {
        self.pending.len() == 0
    }

    /// Lets a message wait behind all others.
    pub fn push(&mut self, delivery: QueuedDelivery)
        ensures
            final(self)@ == old(self)@.push(delivery@),
    {
        self.pending.push_back(delivery);
        assert(self@ =~= old(self)@.push(delivery@));
    }

    /// Takes the message that has waited longest.
    pub fn pop(&mut self) -> (next: Option<QueuedDelivery>)
        ensures
            match next {
                Some(next) => {
                    &&& old(self)@.len() > 0
                    &&& next@ == old(self)@[0]
                    &&& final(self)@ == old(self)@.drop_first()
                },
                None => old(self)@.len() == 0 && final(self)@ == old(self)@,
            },
    {
        let next = self.pending.pop_front();
        proof {
            if next is Some {
                assert(self@ =~= old(self)@.drop_first());
            }
        }
        next
    }

    /// The message at a place in the queue.
    pub fn get(&self, index: usize) -> (queued: Option<&QueuedDelivery>)
        ensures
            match queued {
                Some(queued) => index < self@.len() && queued@ == self@[index as int],
                None => self@.len() <= index,
            },
    {
        if index < self.pending.len() {
            Some(&self.pending[index])
        } else {
            None
        }
    }

    /// Where the first message with a hash waits.
    pub fn position_by_hash(&self, msg_hash: [u8; 32]) -> (at: Option<usize>)
        ensures
            match at {
                Some(i) => queued_index(self@, msg_hash) == Some(i as int) && i < self@.len(),
                None => queued_index(self@, msg_hash) is None,
            },
    {
        let mut i: usize = 0;
        while i < self.pending.len()
            invariant
                i <= self.pending.len(),
                forall|j: int| 0 <= j < i ==> (#[trigger] self@[j]).msg_hash != Some(msg_hash),
            decreases self.pending.len() - i,
        {
            assert(self@[i as int] == self.pending@[i as int]@);
            if hash_is(&self.pending[i].msg_hash, &msg_hash) {
                proof {
                    lemma_first_where_is(self@, queued_as(msg_hash), i as int);
                }
                return Some(i);
            }
            i += 1;
        }
        proof {
            lemma_first_where_none(self@, queued_as(msg_hash));
        }
        None
    }

    /// Takes the message at a place out.
    pub fn remove(&mut self, index: usize) -> (removed: Option<QueuedDelivery>)
        ensures
            match removed {
                Some(removed) => {
                    &&& index < old(self)@.len()
                    &&& removed@ == old(self)@[index as int]
                    &&& final(self)@ == old(self)@.remove(index as int)
                },
                None => old(self)@.len() <= index && final(self)@ == old(self)@,
            },
    {
        let removed = self.pending.remove(index);
        proof {
            if removed is Some {
                assert(self@ =~= old(self)@.remove(index as int));
            }
        }
        removed
    }

    /// Takes all messages out, the one that waited longest first.
    pub fn drain(&mut self) -> (drained: Vec<QueuedDelivery>)
        ensures
            final(self)@ == Seq::<QueuedView>::empty(),
            queued_views(drained@) == old(self)@,
    {
        let mut drained: Vec<QueuedDelivery> = Vec::new();
        while self.pending.len() > 0
            invariant
                queued_views(drained@) + self@ == old(self)@,
            decreases self.pending.len(),
        {
            let ghost before = queued_views(drained@) + self@;
            if let Some(next) = self.pending.pop_front() {
                drained.push(next);
            }
            assert(queued_views(drained@) + self@ =~= before);
        }
        assert(self@ =~= Seq::<QueuedView>::empty());
        assert(queued_views(drained@) + self@ =~= queued_views(drained@));
        drained
    }
}

} // verus!
