//! A message is found by its hash while it is being delivered, and not afterwards.

use std::time::Instant;
use tokio::sync::oneshot;
use vstd::prelude::*;

use crate::backchannel::BackchannelReply;
use crate::commands::LinkReply;
use crate::counts::one_if;
use crate::keyed::{key_index, lemma_key_index};
use crate::message::LxMessageView;
use crate::model::{carrying, holding, start_of, wait_of, ManagerState, OpenRequestView};
use crate::queue::{queued_as, queued_index};
use crate::seqs::{
    count_where, lemma_first_where, lemma_total_bounds_element, lemma_total_remove,
    lemma_total_update, total,
};
use crate::session::SessionView;

verus! {

/// How often a message with this hash is the current one of a session or waits on it.
pub open spec fn occurrences_in(session: SessionView, msg_hash: [u8; 32]) -> nat {
    one_if(session.msg_hash == Some(msg_hash)) + count_where(session.queue, queued_as(msg_hash))
}

impl ManagerState {
    /// How many deliveries of a message with this hash the manager knows of.
    pub open spec fn occurrences(self, msg_hash: [u8; 32]) -> nat {
        total(
            self.sessions,
            |entry: ([u8; 16], SessionView)| occurrences_in(entry.1, msg_hash),
        ) + count_where(self.starts, start_of(msg_hash)) + count_where(self.waits, wait_of(msg_hash))
    }
}

/// Taking an element out takes it from the count.
proof fn lemma_count_remove<A>(s: Seq<A>, p: spec_fn(A) -> bool, i: int)
    requires
        0 <= i < s.len(),
    ensures
        count_where(s.remove(i), p) + one_if(p(s[i])) == count_where(s, p),
{
    let before = s.take(i);
    let after = s.skip(i + 1);
    Seq::filter_distributes_over_add(before, after, p);
    before.lemma_filter_push(s[i], p);
    Seq::filter_distributes_over_add(before.push(s[i]), after, p);
    assert(before + after =~= s.remove(i));
    assert(before.push(s[i]) + after =~= s);
}

/// A hash that does not occur is not found.
proof fn lemma_no_occurrence(state: ManagerState, msg_hash: [u8; 32])
    requires
        state.occurrences(msg_hash) == 0,
    ensures
        !state.holds(msg_hash),
        state.message_snapshot(msg_hash) is None,
{
    let in_session = |entry: ([u8; 16], SessionView)| occurrences_in(entry.1, msg_hash);
    let in_queue = queued_as(msg_hash);
    let in_start = start_of(msg_hash);
    let in_wait = wait_of(msg_hash);
    assert forall|i: int| 0 <= i < state.sessions.len() implies !(
    #[trigger] state.sessions[i]).1.holds(msg_hash) by {
        let session = state.sessions[i].1;
        lemma_total_bounds_element(state.sessions, i, in_session);
        lemma_first_where(session.queue, in_queue);
        if let Some(at) = queued_index(session.queue, msg_hash) {
            lemma_count_remove(session.queue, in_queue, at);
        }
    }
    lemma_first_where(state.sessions, holding(msg_hash));
    lemma_first_where(state.sessions, carrying(msg_hash));
    lemma_first_where(state.starts, in_start);
    if let Some(i) = state.start_holding(msg_hash) {
        lemma_count_remove(state.starts, in_start, i);
    }
    lemma_first_where(state.waits, in_wait);
    if let Some(i) = state.wait_holding(msg_hash) {
        lemma_count_remove(state.waits, in_wait, i);
    }
    if let Some(i) = state.session_carrying(msg_hash) {
        assert(state.sessions[i].1.holds(msg_hash));
    }
}

/// A message that is delivered once is gone when its delivery is failed or cancelled.
pub proof fn ended_message_is_gone(state: ManagerState, msg_hash: [u8; 32], reason: Seq<char>)
    requires
        state.occurrences(msg_hash) <= 1,
    ensures
        ({
            let failed = state.fail_by_hash(msg_hash, reason).state;
            &&& !failed.holds(msg_hash)
            &&& failed.message_snapshot(msg_hash) is None
        }),
        ({
            let cancelled = state.cancel_by_hash(msg_hash);
            &&& !cancelled.holds(msg_hash)
            &&& cancelled.message_snapshot(msg_hash) is None
        }),
{
    let failed = state.fail_by_hash(msg_hash, reason).state;
    let cancelled = state.cancel_by_hash(msg_hash);
    let in_session = |entry: ([u8; 16], SessionView)| occurrences_in(entry.1, msg_hash);
    let in_queue = queued_as(msg_hash);
    let in_start = start_of(msg_hash);
    let in_wait = wait_of(msg_hash);
    lemma_first_where(state.sessions, holding(msg_hash));
    lemma_first_where(state.starts, in_start);
    lemma_first_where(state.waits, in_wait);
    if let Some(i) = state.session_holding(msg_hash) {
        let (link_id, session) = state.sessions[i];
        if session.msg_hash == Some(msg_hash) {
            lemma_total_remove(state.sessions, i, in_session);
        } else {
            lemma_first_where(session.queue, in_queue);
            let at = queued_index(session.queue, msg_hash)->0;
            let shorter = SessionView { queue: session.queue.remove(at), ..session };
            lemma_count_remove(session.queue, in_queue, at);
            lemma_total_update(state.sessions, i, (link_id, shorter), in_session);
        }
    } else if let Some(i) = state.start_holding(msg_hash) {
        lemma_sessions_clear(state, msg_hash);
        lemma_count_remove(state.starts, in_start, i);
    } else if let Some(i) = state.wait_holding(msg_hash) {
        lemma_sessions_clear(state, msg_hash);
        lemma_count_remove(state.waits, in_wait, i);
    } else {
        lemma_sessions_clear(state, msg_hash);
        state.starts.lemma_all_neg_filter_empty(in_start);
        state.waits.lemma_all_neg_filter_empty(in_wait);
    }
    lemma_no_occurrence(failed, msg_hash);
    lemma_no_occurrence(cancelled, msg_hash);
}

/// Sessions that do not hold a hash do not count for it.
proof fn lemma_sessions_clear(state: ManagerState, msg_hash: [u8; 32])
    requires
        state.session_holding(msg_hash) is None,
    ensures
        total(
            state.sessions,
            |entry: ([u8; 16], SessionView)| occurrences_in(entry.1, msg_hash),
        ) == 0,
{
    lemma_first_where(state.sessions, holding(msg_hash));
    lemma_clear_total(state.sessions, msg_hash);
}

proof fn lemma_clear_total(sessions: Seq<([u8; 16], SessionView)>, msg_hash: [u8; 32])
    requires
        forall|i: int| 0 <= i < sessions.len() ==> !(#[trigger] sessions[i]).1.holds(msg_hash),
    ensures
        total(
            sessions,
            |entry: ([u8; 16], SessionView)| occurrences_in(entry.1, msg_hash),
        ) == 0,
    decreases sessions.len(),
{
    if sessions.len() > 0 {
        let last = sessions[sessions.len() - 1].1;
        let in_queue = queued_as(msg_hash);
        assert(!last.holds(msg_hash));
        lemma_first_where(last.queue, in_queue);
        last.queue.lemma_all_neg_filter_empty(in_queue);
        let fewer = sessions.drop_last();
        assert forall|i: int| 0 <= i < fewer.len() implies !(#[trigger] fewer[i]).1.holds(
            msg_hash,
        ) by {
            assert(fewer[i] == sessions[i]);
        }
        lemma_clear_total(fewer, msg_hash);
    }
}

proof fn lemma_carried(state: ManagerState, msg_hash: [u8; 32], i: int)
    requires
        0 <= i < state.sessions.len(),
        state.sessions[i].1.carries(msg_hash),
    ensures
        state.message_snapshot(msg_hash) is Some,
{
    lemma_first_where(state.sessions, carrying(msg_hash));
}

/// A message that a cached link took can be asked for by its hash.
pub proof fn attached_message_is_found(
    state: ManagerState,
    message: LxMessageView,
    dest_hash: [u8; 16],
    idle: u128,
    now: Instant,
    msg_hash: [u8; 32],
)
    requires
        state.attachable(dest_hash, idle),
        message.hash == Some(msg_hash),
    ensures
        state.attached(message, dest_hash, now).message_snapshot(msg_hash) is Some,
{
    let link_id = state.direct_links[dest_hash];
    let after = state.attached(message, dest_hash, now);
    lemma_key_index(state.sessions, link_id);
    let i = key_index(state.sessions, link_id)->0;
    let before = state.sessions[i].1;
    let session = before.attach(message, now);
    assert(after.sessions[i] == (link_id, session));
    let waiting = before.enqueue(message, None, true);
    let p = queued_as(msg_hash);
    lemma_first_where(session.queue, p);
    assert(waiting.queue[before.queue.len() as int].msg_hash == Some(msg_hash));
    if before.state is Idle && before.link_state is Active {
        if before.queue.len() > 0 {
            let at = before.queue.len() - 1;
            assert(session.queue[at] == waiting.queue[at + 1]);
            assert(p(session.queue[at]));
        }
    } else {
        assert(p(session.queue[before.queue.len() as int]));
    }
    lemma_carried(after, msg_hash, i);
}

/// A message for which a link was opened can be asked for by its hash.
pub proof fn message_on_a_new_link_is_found(
    state: ManagerState,
    request: OpenRequestView,
    link_id: [u8; 16],
    result_tx: oneshot::Sender<LinkReply>,
    receiver: oneshot::Receiver<LinkReply>,
    now: Instant,
    msg_hash: [u8; 32],
)
    requires
        request.message.hash == Some(msg_hash),
    ensures
        state.opened(request, link_id, result_tx, receiver, now).message_snapshot(
            msg_hash,
        ) is Some,
{
    let after = state.opened(request, link_id, result_tx, receiver, now);
    lemma_key_index(state.sessions, link_id);
    let i = match key_index(state.sessions, link_id) {
        Some(i) => i,
        None => state.sessions.len() as int,
    };
    assert(after.sessions[i] == (link_id, request.session(link_id, receiver, now)));
    lemma_carried(after, msg_hash, i);
}

/// A message that a backchannel took can be asked for by its hash.
pub proof fn message_on_a_backchannel_is_found(
    state: ManagerState,
    message: LxMessageView,
    dest_hash: [u8; 16],
    link_id: [u8; 16],
    receiver: oneshot::Receiver<BackchannelReply>,
    now: Instant,
    msg_hash: [u8; 32],
)
    requires
        message.hash == Some(msg_hash),
    ensures
        state.backchannel_started(message, dest_hash, link_id, receiver, now).message_snapshot(
            msg_hash,
        ) is Some,
{
    let after = state.backchannel_started(message, dest_hash, link_id, receiver, now);
    let p = start_of(msg_hash);
    lemma_first_where(after.starts, p);
    assert(p(after.starts[state.starts.len() as int]));
}

} // verus!
