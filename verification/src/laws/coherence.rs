//! Which sessions there can be, and how the cache of Direct links leads to them.

use std::time::Instant;
use tokio::sync::oneshot;
use vstd::prelude::*;

use crate::commands::LinkReply;
use crate::failure::LinkDeliveryStartFailure;
use crate::keyed::{
    key_index, lemma_key_index, lemma_key_index_is, lemma_unique_remove, lemma_value_with_entry,
    unique_keys, value_of,
};
use crate::manager::start::direct_start_is;
use crate::message::LxMessageView;
use crate::model::{
    cache_entry_coherent, holding, links_coherent, session_coherent, ManagerState,
    OpenRequestView,
};
use crate::queue::{queued_as, queued_index};
use crate::reports::DirectStart;
use crate::seqs::lemma_first_where;
use crate::session::SessionView;

verus! {

/// A session can change into one that is coherent and goes to the same destination.
pub proof fn lemma_coherent_update(
    direct_links: Map<[u8; 16], [u8; 16]>,
    sessions: Seq<([u8; 16], SessionView)>,
    i: int,
    session: SessionView,
)
    requires
        links_coherent(direct_links, sessions),
        0 <= i < sessions.len(),
        session_coherent(direct_links, (sessions[i].0, session)),
        session.dest_hash == sessions[i].1.dest_hash,
        session.reusable == sessions[i].1.reusable,
    ensures
        links_coherent(direct_links, sessions.update(i, (sessions[i].0, session))),
{
    let after = sessions.update(i, (sessions[i].0, session));
    assert forall|d: [u8; 16]| #[trigger] direct_links.contains_key(d) implies cache_entry_coherent(
        after,
        d,
        direct_links[d],
    ) by {
        assert(cache_entry_coherent(sessions, d, direct_links[d]));
        let k = choose|k: int|
            {
                &&& 0 <= k < sessions.len()
                &&& (#[trigger] sessions[k]).0 == direct_links[d]
                &&& sessions[k].1.reusable
                &&& sessions[k].1.dest_hash == d
            };
        assert(after[k].0 == direct_links[d]);
    }
}

/// A session can go, together with the cache entry that leads to it.
pub proof fn lemma_coherent_remove(
    direct_links: Map<[u8; 16], [u8; 16]>,
    sessions: Seq<([u8; 16], SessionView)>,
    i: int,
)
    requires
        links_coherent(direct_links, sessions),
        0 <= i < sessions.len(),
    ensures
        links_coherent(
            if sessions[i].1.reusable {
                direct_links.remove(sessions[i].1.dest_hash)
            } else {
                direct_links
            },
            sessions.remove(i),
        ),
{
    let gone = sessions[i].1;
    let links = if gone.reusable {
        direct_links.remove(gone.dest_hash)
    } else {
        direct_links
    };
    let after = sessions.remove(i);
    lemma_unique_remove(sessions, i);
    assert(session_coherent(direct_links, sessions[i]));
    assert forall|j: int| 0 <= j < after.len() implies session_coherent(
        links,
        #[trigger] after[j],
    ) by {
        let k = if j < i {
            j
        } else {
            j + 1
        };
        assert(after[j] == sessions[k]);
        assert(session_coherent(direct_links, sessions[k]));
        if k < i {
            assert(sessions[k].0 != sessions[i].0);
        } else {
            assert(sessions[i].0 != sessions[k].0);
        }
    }
    assert forall|d: [u8; 16]| #[trigger] links.contains_key(d) implies cache_entry_coherent(
        after,
        d,
        links[d],
    ) by {
        assert(direct_links.contains_key(d));
        assert(cache_entry_coherent(sessions, d, direct_links[d]));
        let k = choose|k: int|
            {
                &&& 0 <= k < sessions.len()
                &&& (#[trigger] sessions[k]).0 == direct_links[d]
                &&& sessions[k].1.reusable
                &&& sessions[k].1.dest_hash == d
            };
        assert(k != i);
        let j = if k < i {
            k
        } else {
            k - 1
        };
        assert(after[j] == sessions[k]);
    }
}

/// The order of the sessions does not matter: the first can go behind all others.
pub proof fn lemma_coherent_rotate(
    direct_links: Map<[u8; 16], [u8; 16]>,
    sessions: Seq<([u8; 16], SessionView)>,
)
    requires
        links_coherent(direct_links, sessions),
        sessions.len() > 0,
    ensures
        links_coherent(direct_links, sessions.remove(0).push(sessions[0])),
{
    let after = sessions.remove(0).push(sessions[0]);
    let last = sessions.len() - 1;
    assert forall|j: int| 0 <= j < after.len() implies after[j] == sessions[if j < last {
        j + 1
    } else {
        0
    }] by {}
    assert forall|d: [u8; 16]| #[trigger] direct_links.contains_key(d) implies cache_entry_coherent(
        after,
        d,
        direct_links[d],
    ) by {
        assert(cache_entry_coherent(sessions, d, direct_links[d]));
        let k = choose|k: int|
            {
                &&& 0 <= k < sessions.len()
                &&& (#[trigger] sessions[k]).0 == direct_links[d]
                &&& sessions[k].1.reusable
                &&& sessions[k].1.dest_hash == d
            };
        let j = if k > 0 {
            k - 1
        } else {
            last
        };
        assert(after[j] == sessions[k]);
    }
}

/// Sessions are coherent from the start.
pub proof fn initial_state_is_coherent()
    ensures
        ManagerState::initial().coherent(),
{
}

/// Under a coherent state there is one reusable link to a destination at most.
pub proof fn one_reusable_link_for_a_destination(state: ManagerState, i: int, j: int)
    requires
        state.coherent(),
        0 <= i < state.sessions.len(),
        0 <= j < state.sessions.len(),
        state.sessions[i].1.reusable,
        state.sessions[j].1.reusable,
        state.sessions[i].1.dest_hash == state.sessions[j].1.dest_hash,
    ensures
        i == j,
{
    assert(session_coherent(state.direct_links, state.sessions[i]));
    assert(session_coherent(state.direct_links, state.sessions[j]));
}

/// Under a coherent state every cached link has its session, which is reusable and goes
/// to the destination under which the link is cached.
pub proof fn cached_link_has_its_session(state: ManagerState, dest_hash: [u8; 16])
    requires
        state.coherent(),
        state.direct_links.contains_key(dest_hash),
    ensures
        state.cached_session(dest_hash) matches Some(session) && session.reusable
            && session.dest_hash == dest_hash && session.link_id == state.direct_links[dest_hash],
{
    let link_id = state.direct_links[dest_hash];
    assert(cache_entry_coherent(state.sessions, dest_hash, link_id));
    let i = choose|i: int|
        {
            &&& 0 <= i < state.sessions.len()
            &&& (#[trigger] state.sessions[i]).0 == link_id
            &&& state.sessions[i].1.reusable
            &&& state.sessions[i].1.dest_hash == dest_hash
        };
    lemma_key_index_is(state.sessions, i);
    assert(session_coherent(state.direct_links, state.sessions[i]));
}

/// A cached link takes the next Direct message to its destination, unless it has been
/// idle for too long: no second link is opened.
pub proof fn cached_link_takes_the_next_message(
    state: ManagerState,
    dest_hash: [u8; 16],
    idle: u128,
)
    requires
        state.coherent(),
        state.direct_links.contains_key(dest_hash),
    ensures
        state.attachable(dest_hash, idle) == !state.cached_session(dest_hash)->0.idle_expired(idle),
{
    cached_link_has_its_session(state, dest_hash);
}

/// A message that a cached link takes leaves the state coherent.
pub proof fn attaching_keeps_coherence(
    state: ManagerState,
    message: LxMessageView,
    dest_hash: [u8; 16],
    now: Instant,
)
    requires
        state.coherent(),
        state.direct_links.contains_key(dest_hash),
    ensures
        state.attached(message, dest_hash, now).coherent(),
{
    let link_id = state.direct_links[dest_hash];
    cached_link_has_its_session(state, dest_hash);
    lemma_key_index(state.sessions, link_id);
    let i = key_index(state.sessions, link_id)->0;
    let session = state.sessions[i].1;
    let after = session.attach(message, now);
    assert(session_coherent(state.direct_links, state.sessions[i]));
    lemma_coherent_update(state.direct_links, state.sessions, i, after);
}

/// Dropping an unusable cache entry leaves the state coherent, and the destination
/// without a cached link.
pub proof fn releasing_keeps_coherence(state: ManagerState, dest_hash: [u8; 16], idle: u128)
    requires
        state.coherent(),
        !state.attachable(dest_hash, idle),
    ensures
        state.released(dest_hash, idle).coherent(),
        !state.released(dest_hash, idle).direct_links.contains_key(dest_hash),
{
    if state.direct_links.contains_key(dest_hash) {
        cached_link_has_its_session(state, dest_hash);
        let link_id = state.direct_links[dest_hash];
        lemma_key_index(state.sessions, link_id);
        lemma_coherent_remove(
            state.direct_links,
            state.sessions,
            key_index(state.sessions, link_id)->0,
        );
    }
}

/// Starting a Direct delivery leaves the state coherent. Where a link is to be opened,
/// the destination has no cached link, so that the new one can take its place.
pub proof fn direct_start_keeps_coherence(
    before: ManagerState,
    message: LxMessageView,
    dest_hash: [u8; 16],
    hops: u8,
    idle: u128,
    now: Instant,
    after: ManagerState,
    started: Result<DirectStart, LinkDeliveryStartFailure>,
)
    requires
        before.coherent(),
        direct_start_is(before, message, dest_hash, hops, idle, now, after, started),
    ensures
        after.coherent(),
        started matches Ok(DirectStart::OpenLink(open)) ==> open@.dest_hash == dest_hash
            && !after.direct_links.contains_key(dest_hash),
{
    if before.attachable(dest_hash, idle) {
        attaching_keeps_coherence(before, message, dest_hash, now);
    } else {
        releasing_keeps_coherence(before, dest_hash, idle);
    }
}

/// A link that is new, to a destination without a cached link, leaves the state
/// coherent.
pub proof fn opening_keeps_coherence(
    state: ManagerState,
    request: OpenRequestView,
    link_id: [u8; 16],
    result_tx: oneshot::Sender<LinkReply>,
    receiver: oneshot::Receiver<LinkReply>,
    now: Instant,
)
    requires
        state.coherent(),
        value_of(state.sessions, link_id) is None,
        request.reusable ==> !state.direct_links.contains_key(request.dest_hash),
    ensures
        state.opened(request, link_id, result_tx, receiver, now).coherent(),
{
    let after = state.opened(request, link_id, result_tx, receiver, now);
    let session = request.session(link_id, receiver, now);
    lemma_key_index(state.sessions, link_id);
    let at = state.sessions.len() as int;
    assert(after.sessions == state.sessions.push((link_id, session)));
    assert(after.sessions[at] == (link_id, session));
    assert forall|j: int| 0 <= j < after.sessions.len() implies session_coherent(
        after.direct_links,
        #[trigger] after.sessions[j],
    ) by {
        if j < at {
            assert(after.sessions[j] == state.sessions[j]);
            assert(session_coherent(state.direct_links, state.sessions[j]));
        }
    }
    assert forall|d: [u8; 16]| #[trigger]
        after.direct_links.contains_key(d) implies cache_entry_coherent(
        after.sessions,
        d,
        after.direct_links[d],
    ) by {
        if request.reusable && d == request.dest_hash {
            assert(after.sessions[at].0 == link_id);
        } else {
            assert(state.direct_links.contains_key(d));
            assert(cache_entry_coherent(state.sessions, d, state.direct_links[d]));
            let k = choose|k: int|
                {
                    &&& 0 <= k < state.sessions.len()
                    &&& (#[trigger] state.sessions[k]).0 == state.direct_links[d]
                    &&& state.sessions[k].1.reusable
                    &&& state.sessions[k].1.dest_hash == d
                };
            assert(after.sessions[k] == state.sessions[k]);
        }
    }
}

/// A link that is being opened takes further messages to its destination, however long
/// it takes: they wait behind the first.
pub proof fn link_being_opened_takes_further_messages(
    state: ManagerState,
    request: OpenRequestView,
    link_id: [u8; 16],
    result_tx: oneshot::Sender<LinkReply>,
    receiver: oneshot::Receiver<LinkReply>,
    now: Instant,
    idle: u128,
)
    requires
        request.reusable,
        unique_keys(state.sessions),
    ensures
        ({
            let after = state.opened(request, link_id, result_tx, receiver, now);
            &&& after.attachable(request.dest_hash, idle)
            &&& after.cached_session(request.dest_hash)->0.attach_kind() is QueuedOnDirect
        }),
{
    lemma_value_with_entry(
        state.sessions,
        link_id,
        request.session(link_id, receiver, now),
        link_id,
    );
}

/// Taking a session out by its place leaves the state coherent.
proof fn lemma_without_session_coherent(state: ManagerState, i: int)
    requires
        state.coherent(),
        0 <= i < state.sessions.len(),
    ensures
        state.without_session(i).coherent(),
{
    let (link_id, session) = state.sessions[i];
    assert(session_coherent(state.direct_links, state.sessions[i]));
    lemma_coherent_remove(state.direct_links, state.sessions, i);
    if !session.reusable && state.direct_links.contains_key(session.dest_hash) {
        cached_link_has_its_session(state, session.dest_hash);
        lemma_key_index_is(state.sessions, i);
    }
}

/// Taking a waiting message out leaves the state coherent.
pub proof fn lemma_without_queued_coherent(state: ManagerState, i: int, at: int)
    requires
        state.coherent(),
        0 <= i < state.sessions.len(),
        0 <= at < state.sessions[i].1.queue.len(),
    ensures
        state.without_queued(i, at).coherent(),
{
    let session = state.sessions[i].1;
    assert(session_coherent(state.direct_links, state.sessions[i]));
    lemma_coherent_update(
        state.direct_links,
        state.sessions,
        i,
        SessionView { queue: session.queue.remove(at), ..session },
    );
}

/// Failing and cancelling a delivery by its message hash leave the state coherent.
pub proof fn ending_by_hash_keeps_coherence(
    state: ManagerState,
    msg_hash: [u8; 32],
    reason: Seq<char>,
)
    requires
        state.coherent(),
    ensures
        state.fail_by_hash(msg_hash, reason).state.coherent(),
        state.cancel_by_hash(msg_hash).coherent(),
{
    if let Some(i) = state.session_holding(msg_hash) {
        lemma_first_where(state.sessions, holding(msg_hash));
        let session = state.sessions[i].1;
        if session.msg_hash == Some(msg_hash) {
            lemma_without_session_coherent(state, i);
        } else {
            lemma_first_where(session.queue, queued_as(msg_hash));
            lemma_without_queued_coherent(state, i, queued_index(session.queue, msg_hash)->0);
        }
    }
}

} // verus!
