//! What is told of a message or a link when asked is what is known of it.

use std::time::Instant;
use tokio::sync::oneshot;
use vstd::prelude::*;

use super::attaching::{is_worn_out, joining_message_waits_its_turn};
use super::coherence::{attaching_keeps_coherence, cached_link_has_its_session};
use super::opening::opened_link_is_noted_as_asked;
use crate::backchannel::{BackchannelProofKey, BackchannelReply};
use crate::commands::LinkReply;
use crate::keyed::{
    has_key, key_index, lemma_key_index, lemma_key_index_is, unique_keys, value_of,
};
use crate::message::LxMessageView;
use crate::model::{
    carrying, session_coherent, start_of, wait_of, ManagerState, MessageSnapshotView,
    OpenRequestView,
};
use crate::queue::{queued_as, queued_index, QueuedView};
use crate::seqs::{lemma_first_where, lemma_first_where_is};
use crate::session::SessionView;
use crate::types::LinkState;

verus! {

/// Whether a message is the one under way on a link.
pub open spec fn is_under_way(session: SessionView, msg_hash: [u8; 32]) -> bool {
    session.state !is Idle && session.msg_hash == Some(msg_hash)
}

/// Whether a place in a queue is the first at which a message waits.
pub open spec fn waits_first_at(queue: Seq<QueuedView>, msg_hash: [u8; 32], k: int) -> bool {
    &&& 0 <= k < queue.len()
    &&& queue[k].msg_hash == Some(msg_hash)
    &&& forall|j: int| 0 <= j < k ==> (#[trigger] queue[j]).msg_hash != Some(msg_hash)
}

/// Whether a message waits in a queue.
pub open spec fn waits_in(queue: Seq<QueuedView>, msg_hash: [u8; 32]) -> bool {
    exists|k: int| #[trigger] waits_first_at(queue, msg_hash, k)
}

/// Whether a link has a message: under way, or waiting.
pub open spec fn is_on(session: SessionView, msg_hash: [u8; 32]) -> bool {
    is_under_way(session, msg_hash) || waits_in(session.queue, msg_hash)
}

/// Whether a snapshot of a message tells of its delivery over a link: it names the link
/// and its destination, tells how the link stands, and tells of the message itself how far
/// it has come and whether it waits.
pub open spec fn tells_of_link(
    snapshot: MessageSnapshotView,
    link_id: [u8; 16],
    session: SessionView,
    msg_hash: [u8; 32],
) -> bool {
    &&& snapshot.link_id == link_id
    &&& snapshot.dest_hash == session.dest_hash
    &&& snapshot.link_state == session.link_state
    &&& snapshot.delivery_state == session.state
    &&& snapshot.queued == !is_under_way(session, msg_hash)
    &&& snapshot.queued_deliveries == session.queue.len()
    &&& snapshot.in_flight_deliveries == session.queue.len() + if session.state is Idle {
        0int
    } else {
        1
    }
    &&& is_under_way(session, msg_hash) ==> {
        &&& snapshot.representation == session.message.representation
        &&& snapshot.progress == session.message.progress
    }
    &&& !is_under_way(session, msg_hash) ==> exists|k: int|
        {
            &&& #[trigger] waits_first_at(session.queue, msg_hash, k)
            &&& snapshot.representation == session.queue[k].message.representation
            &&& snapshot.progress == session.queue[k].message.progress
        }
}

proof fn lemma_carries(session: SessionView, msg_hash: [u8; 32])
    ensures
        session.carries(msg_hash) == is_on(session, msg_hash),
        !is_under_way(session, msg_hash) && session.carries(msg_hash) ==> waits_first_at(
            session.queue,
            msg_hash,
            queued_index(session.queue, msg_hash)->0,
        ),
{
    lemma_first_where(session.queue, queued_as(msg_hash));
    if let Some(at) = queued_index(session.queue, msg_hash) {
        assert(waits_first_at(session.queue, msg_hash, at));
    }
    if waits_in(session.queue, msg_hash) {
        let k = choose|k: int| #[trigger] waits_first_at(session.queue, msg_hash, k);
        lemma_first_where_is(session.queue, queued_as(msg_hash), k);
    }
}

/// A snapshot of a message tells of the first link that has the message.
pub proof fn snapshot_tells_of_the_link(state: ManagerState, msg_hash: [u8; 32], i: int)
    requires
        0 <= i < state.sessions.len(),
        is_on(state.sessions[i].1, msg_hash),
        forall|j: int| 0 <= j < i ==> !is_on((#[trigger] state.sessions[j]).1, msg_hash),
    ensures
        state.message_snapshot(msg_hash) matches Some(snapshot) && tells_of_link(
            snapshot,
            state.sessions[i].0,
            state.sessions[i].1,
            msg_hash,
        ),
{
    assert forall|j: int| 0 <= j < state.sessions.len() implies (
    #[trigger] state.sessions[j]).1.carries(msg_hash) == is_on(state.sessions[j].1, msg_hash) by {
        lemma_carries(state.sessions[j].1, msg_hash);
    }
    lemma_carries(state.sessions[i].1, msg_hash);
    lemma_first_where_is(state.sessions, carrying(msg_hash), i);
}

/// A snapshot of a message that no link has tells of the first send of it over a
/// backchannel: of a command without an answer, which counts as waiting, or else of a send
/// that waits for its proof. Without such a send there is no snapshot.
pub proof fn snapshot_tells_of_the_backchannel(state: ManagerState, msg_hash: [u8; 32], i: int)
    requires
        forall|j: int|
            0 <= j < state.sessions.len() ==> !is_on((#[trigger] state.sessions[j]).1, msg_hash),
    ensures
        0 <= i < state.starts.len() && state.starts[i].message.hash == Some(msg_hash) && (forall|
            j: int,
        |
            0 <= j < i ==> (#[trigger] state.starts[j]).message.hash != Some(msg_hash)) ==> {
            &&& state.message_snapshot(msg_hash) matches Some(snapshot)
            &&& snapshot.link_id == state.starts[i].link_id
            &&& snapshot.dest_hash == state.starts[i].dest_hash
            &&& snapshot.link_state is Active
            &&& snapshot.delivery_state is Transferring
            &&& snapshot.representation is Unknown
            &&& snapshot.progress == state.starts[i].message.progress
            &&& snapshot.queued
            &&& snapshot.queued_deliveries == 1
            &&& snapshot.in_flight_deliveries == 0
        },
        0 <= i < state.waits.len() && state.waits[i].1.message.hash == Some(msg_hash) && (forall|
            j: int,
        |
            0 <= j < i ==> (#[trigger] state.waits[j]).1.message.hash != Some(msg_hash)) && (
        forall|j: int|
            0 <= j < state.starts.len() ==> (#[trigger] state.starts[j]).message.hash != Some(
                msg_hash,
            )) ==> {
            &&& state.message_snapshot(msg_hash) matches Some(snapshot)
            &&& snapshot.link_id == match state.waits[i].0 {
                BackchannelProofKey::Packet(link_id, _) => link_id,
                BackchannelProofKey::Resource(link_id, _) => link_id,
            }
            &&& snapshot.dest_hash == state.waits[i].1.dest_hash
            &&& snapshot.link_state is Active
            &&& snapshot.delivery_state is AwaitingProof
            &&& snapshot.representation == state.waits[i].1.representation
            &&& snapshot.progress == state.waits[i].1.message.progress
            &&& !snapshot.queued
            &&& snapshot.queued_deliveries == 0
            &&& snapshot.in_flight_deliveries == 1
        },
        (forall|j: int|
            0 <= j < state.starts.len() ==> (#[trigger] state.starts[j]).message.hash != Some(
                msg_hash,
            )) && (forall|j: int|
            0 <= j < state.waits.len() ==> (#[trigger] state.waits[j]).1.message.hash != Some(
                msg_hash,
            )) ==> state.message_snapshot(msg_hash) is None,
{
    assert forall|j: int| 0 <= j < state.sessions.len() implies !(
    #[trigger] state.sessions[j]).1.carries(msg_hash) by {
        lemma_carries(state.sessions[j].1, msg_hash);
    }
    lemma_first_where(state.sessions, carrying(msg_hash));
    lemma_first_where(state.starts, start_of(msg_hash));
    lemma_first_where(state.waits, wait_of(msg_hash));
    if 0 <= i < state.starts.len() && state.starts[i].message.hash == Some(msg_hash) && (forall|
        j: int,
    |
        0 <= j < i ==> (#[trigger] state.starts[j]).message.hash != Some(msg_hash)) {
        lemma_first_where_is(state.starts, start_of(msg_hash), i);
    }
    if 0 <= i < state.waits.len() && state.waits[i].1.message.hash == Some(msg_hash) && (forall|
        j: int,
    |
        0 <= j < i ==> (#[trigger] state.waits[j]).1.message.hash != Some(msg_hash)) {
        lemma_first_where_is(state.waits, wait_of(msg_hash), i);
    }
}

/// A message with a new hash that joined a link is told of as being on that link, to the
/// destination of the start, and as waiting exactly if the link did not accept it at once;
/// the link stands as the snapshot of the destination's link says.
pub proof fn joined_message_is_told_of(
    state: ManagerState,
    message: LxMessageView,
    dest_hash: [u8; 16],
    now: Instant,
    later: u128,
    msg_hash: [u8; 32],
)
    requires
        state.coherent(),
        state.direct_links.contains_key(dest_hash),
        message.hash == Some(msg_hash),
        state.message_snapshot(msg_hash) is None,
    ensures
        ({
            let after = state.attached(message, dest_hash, now);
            let report = state.attached_report(message, dest_hash, now);
            &&& after.message_snapshot(msg_hash) matches Some(snapshot)
            &&& after.link_snapshot(dest_hash, later) matches Some(link)
            &&& snapshot.link_id == state.direct_links[dest_hash]
            &&& snapshot.link_id == report.link_id
            &&& snapshot.link_id == link.link_id
            &&& snapshot.dest_hash == dest_hash
            &&& snapshot.queued == (report.kind is QueuedOnDirect)
            &&& snapshot.link_state == link.link_state
            &&& snapshot.delivery_state == link.delivery_state
            &&& snapshot.queued_deliveries == link.queued_deliveries
            &&& snapshot.in_flight_deliveries == link.queued_deliveries + link.in_flight_deliveries
            &&& snapshot.representation == message.representation
            &&& snapshot.progress == message.progress
        }),
{
    let link_id = state.direct_links[dest_hash];
    let after = state.attached(message, dest_hash, now);
    cached_link_has_its_session(state, dest_hash);
    joining_message_waits_its_turn(state, message, dest_hash, now, link_id);
    lemma_key_index(state.sessions, link_id);
    let i = key_index(state.sessions, link_id)->0;
    let session = state.sessions[i].1;
    let joined = after.sessions[i].1;
    lemma_nothing_is_on(state, msg_hash);
    assert(!is_on(state.sessions[i].1, msg_hash));
    assert forall|j: int| 0 <= j < i implies !is_on((#[trigger] after.sessions[j]).1, msg_hash) by {
        assert(after.sessions[j] == state.sessions[j]);
    }
    assert(after.sessions[i] == (link_id, session.attach(message, now)));
    attaching_keeps_coherence(state, message, dest_hash, now);
    lemma_key_index_is(after.sessions, i);
    assert(session_coherent(state.direct_links, state.sessions[i]));
    if !(session.state is Idle && session.link_state is Active && session.queue.len() == 0) {
        let k = joined.queue.len() - 1;
        assert(joined.queue[k].message == message);
        assert forall|j: int| 0 <= j < k implies (#[trigger] joined.queue[j]).msg_hash != Some(
            msg_hash,
        ) by {
            if joined.queue[j].msg_hash == Some(msg_hash) {
                let at = if session.state is Idle && session.link_state is Active {
                    j + 1
                } else {
                    j
                };
                assert(session.queue[at] == joined.queue[j]);
                lemma_waits(session.queue, msg_hash, at);
            }
        }
        assert(waits_first_at(joined.queue, msg_hash, k));
        assert(waits_in(joined.queue, msg_hash));
        if is_under_way(joined, msg_hash) {
            if session.state is Idle && session.link_state is Active {
                assert(session.queue[0].msg_hash == Some(msg_hash));
                lemma_waits(session.queue, msg_hash, 0);
            } else {
                assert(is_under_way(session, msg_hash));
            }
        }
        assert(is_on(joined, msg_hash));
        snapshot_tells_of_the_link(after, msg_hash, i);
        let snapshot = after.message_snapshot(msg_hash)->0;
        let at = choose|at: int|
            {
                &&& #[trigger] waits_first_at(joined.queue, msg_hash, at)
                &&& snapshot.representation == joined.queue[at].message.representation
                &&& snapshot.progress == joined.queue[at].message.progress
            };
        assert(at == k) by {
            if at < k {
                assert(joined.queue[at].msg_hash != Some(msg_hash));
            }
        }
    } else {
        assert(is_on(joined, msg_hash));
        snapshot_tells_of_the_link(after, msg_hash, i);
    }
}

proof fn lemma_waits(queue: Seq<QueuedView>, msg_hash: [u8; 32], at: int)
    requires
        0 <= at < queue.len(),
        queue[at].msg_hash == Some(msg_hash),
    ensures
        waits_in(queue, msg_hash),
{
    lemma_first_where(queue, queued_as(msg_hash));
    let k = queued_index(queue, msg_hash)->0;
    assert(queued_as(msg_hash)(queue[at]));
    assert(waits_first_at(queue, msg_hash, k));
}

proof fn lemma_nothing_is_on(state: ManagerState, msg_hash: [u8; 32])
    requires
        state.message_snapshot(msg_hash) is None,
    ensures
        forall|j: int|
            0 <= j < state.sessions.len() ==> !is_on((#[trigger] state.sessions[j]).1, msg_hash),
{
    lemma_first_where(state.sessions, carrying(msg_hash));
    assert forall|j: int| 0 <= j < state.sessions.len() implies !is_on(
        (#[trigger] state.sessions[j]).1,
        msg_hash,
    ) by {
        lemma_carries(state.sessions[j].1, msg_hash);
        assert(!carrying(msg_hash)(state.sessions[j]));
    }
}

/// A message with a new hash for which a link was opened is told of as being under way on
/// that link, to the destination of the request, while the link is being established.
pub proof fn message_on_a_new_link_is_told_of(
    state: ManagerState,
    request: OpenRequestView,
    link_id: [u8; 16],
    result_tx: oneshot::Sender<LinkReply>,
    receiver: oneshot::Receiver<LinkReply>,
    now: Instant,
    msg_hash: [u8; 32],
)
    requires
        unique_keys(state.sessions),
        !has_key(state.sessions, link_id),
        request.message.hash == Some(msg_hash),
        state.message_snapshot(msg_hash) is None,
    ensures
        state.opened(request, link_id, result_tx, receiver, now).message_snapshot(
            msg_hash,
        ) matches Some(snapshot) && {
            &&& snapshot.link_id == link_id
            &&& snapshot.dest_hash == request.dest_hash
            &&& snapshot.link_state is Pending
            &&& snapshot.delivery_state is Establishing
            &&& !snapshot.queued
            &&& snapshot.queued_deliveries == 0
            &&& snapshot.in_flight_deliveries == 1
            &&& snapshot.representation == request.message.representation
            &&& snapshot.progress == request.message.progress
        },
{
    let after = state.opened(request, link_id, result_tx, receiver, now);
    let i = state.sessions.len() as int;
    opened_link_is_noted_as_asked(state, request, link_id, result_tx, receiver, now, link_id);
    lemma_key_index(state.sessions, link_id);
    lemma_nothing_is_on(state, msg_hash);
    assert forall|j: int| 0 <= j < i implies !is_on((#[trigger] after.sessions[j]).1, msg_hash) by {
        assert(after.sessions[j] == state.sessions[j]);
    }
    assert(is_on(after.sessions[i].1, msg_hash));
    snapshot_tells_of_the_link(after, msg_hash, i);
}

/// A message with a new hash that a backchannel took is told of as being on its way over
/// that link, to the destination of the start.
pub proof fn message_on_a_backchannel_is_told_of(
    state: ManagerState,
    message: LxMessageView,
    dest_hash: [u8; 16],
    link_id: [u8; 16],
    receiver: oneshot::Receiver<BackchannelReply>,
    now: Instant,
    msg_hash: [u8; 32],
)
    requires
        message.hash == Some(msg_hash),
        state.message_snapshot(msg_hash) is None,
    ensures
        state.backchannel_started(message, dest_hash, link_id, receiver, now).message_snapshot(
            msg_hash,
        ) matches Some(snapshot) && {
            &&& snapshot.link_id == link_id
            &&& snapshot.dest_hash == dest_hash
            &&& snapshot.link_state is Active
            &&& snapshot.delivery_state is Transferring
            &&& snapshot.queued
            &&& snapshot.progress == message.progress
        },
{
    let after = state.backchannel_started(message, dest_hash, link_id, receiver, now);
    let i = state.starts.len() as int;
    lemma_nothing_is_on(state, msg_hash);
    lemma_first_where(state.sessions, carrying(msg_hash));
    lemma_first_where(state.starts, start_of(msg_hash));
    assert forall|j: int| 0 <= j < i implies (#[trigger] after.starts[j]).message.hash != Some(
        msg_hash,
    ) by {
        assert(!start_of(msg_hash)(state.starts[j]));
        assert(after.starts[j] == state.starts[j]);
    }
    snapshot_tells_of_the_backchannel(after, msg_hash, i);
}

/// There is a snapshot of the link to a destination exactly if a link is kept for it that
/// has a session; it names the link and the destination and tells how the link stands and
/// whether it is worn out.
pub proof fn link_snapshot_tells_how_the_link_stands(
    state: ManagerState,
    dest_hash: [u8; 16],
    idle: u128,
)
    ensures
        state.link_snapshot(dest_hash, idle) is Some <==> state.direct_links.contains_key(dest_hash)
            && has_key(state.sessions, state.direct_links[dest_hash]),
        state.link_snapshot(dest_hash, idle) matches Some(snapshot) ==> {
            let session = value_of(state.sessions, state.direct_links[dest_hash])->0;
            &&& snapshot.link_id == state.direct_links[dest_hash]
            &&& snapshot.dest_hash == dest_hash
            &&& snapshot.link_state == session.link_state
            &&& snapshot.delivery_state == session.state
            &&& snapshot.idle_expired == is_worn_out(session, idle)
            &&& snapshot.queued_deliveries == session.queue.len()
            &&& snapshot.in_flight_deliveries == if session.state is Idle {
                0nat
            } else {
                1
            }
        },
{
}

/// A destination has a link exactly if a backchannel is registered for it or a reusable
/// link is kept for it that is not closed and not worn out.
pub proof fn destination_has_a_link_if_one_is_usable(
    state: ManagerState,
    dest_hash: [u8; 16],
    idle: u128,
)
    ensures
        state.link_available(dest_hash, idle) <==> {
            ||| state.backchannel_links.contains_key(dest_hash)
            ||| {
                &&& state.direct_links.contains_key(dest_hash)
                &&& value_of(state.sessions, state.direct_links[dest_hash]) matches Some(session)
                &&& session.reusable
                &&& session.link_state != LinkState::Closed
                &&& !is_worn_out(session, idle)
            }
        },
{
}

} // verus!
