//! What is to be sent is sent in the next round.

use std::time::Instant;
use vstd::prelude::*;

use super::coherence::cached_link_has_its_session;
use super::rounds::{
    backchannel_round_leaves_sessions, lemma_settle_sessions_step,
};
use crate::channel::link_answer_channel;
use crate::commands::CommandView;
use crate::keyed::{key_index, lemma_key_index};
use crate::message::LxMessageView;
use crate::model::{
    session_coherent, DirectLinkStartKind, ManagerState, SessionObservation, StartObservation,
};
use crate::session::SessionView;

verus! {

/// Whether a command is among those that one state has and another had not.
pub open spec fn newly_commanded(
    before: ManagerState,
    after: ManagerState,
    command: CommandView,
) -> bool {
    exists|k: int|
        before.commands.len() <= k < after.commands.len() && #[trigger] after.commands[k]
            == command
}

/// The round of a session adds commands and takes none away.
proof fn lemma_session_commands(
    state: ManagerState,
    entry: ([u8; 16], SessionView),
    look: SessionObservation,
)
    ensures
        ({
            let after = state.settle_session(entry, look).state.commands;
            let launched = entry.1.launch_waiting(look).commands;
            &&& (state.commands + launched).len() <= after.len()
            &&& after.take((state.commands + launched).len() as int) == state.commands + launched
        }),
{
    let after = state.settle_session(entry, look).state.commands;
    let sent = state.commands + entry.1.launch_waiting(look).commands;
    assert(after.take(sent.len() as int) =~= sent);
}

proof fn lemma_sessions_send(
    state: ManagerState,
    all: Seq<([u8; 16], SessionView)>,
    seen: Seq<SessionObservation>,
    k: int,
    i: int,
)
    requires
        seen.len() == all.len(),
        0 <= i < all.len(),
        0 <= k <= all.len(),
    ensures
        ({
            let after = state.settle_sessions(all.take(k), seen.take(k)).state;
            let launched = all[i].1.launch_waiting(seen[i]).commands;
            &&& state.commands.len() <= after.commands.len()
            &&& k > i && launched.len() == 1 ==> newly_commanded(state, after, launched[0])
        }),
    decreases k,
{
    if k > 0 {
        let last = k - 1;
        lemma_sessions_send(state, all, seen, last, i);
        let before = state.settle_sessions(all.take(last), seen.take(last)).state;
        assert(seen.take(k) =~= seen.take(last).push(seen[last]));
        lemma_settle_sessions_step(state, all, last, seen.take(last), seen[last]);
        let after = before.settle_session(all[last], seen[last]).state;
        lemma_session_commands(before, all[last], seen[last]);
        let sent = before.commands + all[last].1.launch_waiting(seen[last]).commands;
        let launched = all[i].1.launch_waiting(seen[i]).commands;
        if k > i && launched.len() == 1 {
            let at = if i == last {
                before.commands.len() as int
            } else {
                choose|at: int|
                    state.commands.len() <= at < before.commands.len()
                        && #[trigger] before.commands[at] == launched[0]
            };
            assert(sent[at] == launched[0]);
            assert(after.commands.take(sent.len() as int)[at] == launched[0]);
            assert(after.commands[at] == launched[0]);
        }
    }
}

/// In every round a message that is to be sent is sent, where it has a payload: the
/// runtime is told to send that payload over the link, and its answer is awaited on the
/// channel that it was given.
pub proof fn round_sends_what_is_to_be_sent(
    state: ManagerState,
    starts_seen: Seq<StartObservation>,
    ages: Seq<u128>,
    sessions_seen: Seq<SessionObservation>,
    i: int,
)
    requires
        state.saw(starts_seen, ages, sessions_seen),
        0 <= i < state.sessions.len(),
        state.sessions[i].1.to_be_sent(sessions_seen[i].started) matches Some(current)
            && current.payload() is Ok,
    ensures
        ({
            let seen = sessions_seen[i];
            let current = state.sessions[i].1.to_be_sent(seen.started)->0;
            let after = state.tick(starts_seen, ages, sessions_seen).state;
            &&& newly_commanded(state, after, current.launch_command(seen.result_tx))
            &&& link_answer_channel(seen.result_tx, seen.receiver)
            &&& state.sessions[i].1.launch_waiting(seen).session.runtime_result == Some(
                seen.receiver,
            )
        }),
{
    backchannel_round_leaves_sessions(state, starts_seen, ages);
    let middle = state.tick_backchannels(starts_seen, ages).state;
    let cleared = ManagerState { sessions: Seq::empty(), ..middle };
    let n = state.sessions.len() as int;
    lemma_sessions_send(cleared, state.sessions, sessions_seen, n, i);
    assert(state.sessions.take(n) =~= state.sessions);
    assert(sessions_seen.take(n) =~= sessions_seen);
    assert(state.sessions[i].1.saw(sessions_seen[i]));
    let current = state.sessions[i].1.to_be_sent(sessions_seen[i].started)->0;
    let after = state.tick(starts_seen, ages, sessions_seen).state;
    let command = current.launch_command(sessions_seen[i].result_tx);
    assert(newly_commanded(cleared, after, command));
}

/// A message that an idle active link accepted at once is sent in the next round, over
/// that link and as it is.
pub proof fn accepted_message_is_sent(
    state: ManagerState,
    message: LxMessageView,
    dest_hash: [u8; 16],
    now: Instant,
    starts_seen: Seq<StartObservation>,
    ages: Seq<u128>,
    sessions_seen: Seq<SessionObservation>,
)
    requires
        state.coherent(),
        state.direct_links.contains_key(dest_hash),
        state.attached_report(message, dest_hash, now).kind
            == DirectLinkStartKind::ReusedActiveDirect,
        message.packed is Ok,
        state.attached(message, dest_hash, now).saw(starts_seen, ages, sessions_seen),
    ensures
        ({
            let taken = state.attached(message, dest_hash, now);
            let after = taken.tick(starts_seen, ages, sessions_seen).state;
            exists|command: CommandView|
                {
                    &&& #[trigger] newly_commanded(taken, after, command)
                    &&& command matches CommandView::SendPayload { link_id, payload, .. }
                    &&& link_id == state.direct_links[dest_hash]
                    &&& payload == message.packed->Ok_0
                }
        }),
{
    let taken = state.attached(message, dest_hash, now);
    let link_id = state.direct_links[dest_hash];
    cached_link_has_its_session(state, dest_hash);
    lemma_key_index(state.sessions, link_id);
    let i = key_index(state.sessions, link_id)->0;
    let session = state.sessions[i].1;
    assert(session_coherent(state.direct_links, state.sessions[i]));
    assert(taken.sessions[i] == (link_id, session.attach(message, now)));
    assert(session.queue.push(session.enqueue(message, None, true).queue.last()).drop_first()
        =~= Seq::empty());
    round_sends_what_is_to_be_sent(taken, starts_seen, ages, sessions_seen, i);
    let current = taken.sessions[i].1;
    assert(current.to_be_sent(sessions_seen[i].started) == Some(current));
    let command = current.launch_command(sessions_seen[i].result_tx);
    let after = taken.tick(starts_seen, ages, sessions_seen).state;
    assert(newly_commanded(taken, after, command));
}

} // verus!
