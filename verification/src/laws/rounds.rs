//! What a round does and leaves alone.

use std::time::Instant;
use vstd::prelude::*;

use super::coherence::{lemma_coherent_remove, lemma_coherent_update};
use crate::backchannel::{
    BackchannelProofKey, ProofWaitView, StartView, BACKCHANNEL_DELIVERY_TIMEOUT,
    BACKCHANNEL_SEND_COMMAND_TIMEOUT,
};
use crate::commands::LinkPayloadSendReceipt;
use crate::keyed::{has_key, lemma_key_index, lemma_value_push, unique_keys, value_of};
use crate::model::{
    links_coherent, session_coherent, ManagerState, SessionObservation, StartObservation,
};
use crate::session::{answer_in, SessionView, SettledSession};

verus! {

/// The backchannels' part of a round leaves the sessions, the cache of Direct links and
/// the commands to the runtime alone.
pub proof fn backchannel_round_leaves_sessions(
    state: ManagerState,
    seen: Seq<StartObservation>,
    ages: Seq<u128>,
)
    ensures
        ({
            let after = state.tick_backchannels(seen, ages).state;
            &&& after.sessions == state.sessions
            &&& after.direct_links == state.direct_links
            &&& after.commands == state.commands
        }),
{
    lemma_settle_starts_leave(
        ManagerState { starts: Seq::empty(), ..state },
        state.starts,
        seen,
    );
    let answered = state.answered(seen).state;
    lemma_age_waits_leave(
        ManagerState { waits: Seq::empty(), ..answered },
        answered.waits,
        ages,
    );
}

proof fn lemma_settle_starts_leave(
    state: ManagerState,
    starts: Seq<StartView>,
    seen: Seq<StartObservation>,
)
    ensures
        ({
            let after = state.settle_starts(starts, seen).state;
            &&& after.sessions == state.sessions
            &&& after.direct_links == state.direct_links
            &&& after.commands == state.commands
        }),
    decreases starts.len(),
{
    if starts.len() > 0 {
        lemma_settle_starts_leave(state, starts.drop_last(), seen.drop_last());
    }
}

proof fn lemma_age_waits_leave(
    state: ManagerState,
    waits: Seq<(BackchannelProofKey, ProofWaitView)>,
    ages: Seq<u128>,
)
    ensures
        ({
            let after = state.age_waits(waits, ages).state;
            &&& after.sessions == state.sessions
            &&& after.direct_links == state.direct_links
            &&& after.commands == state.commands
        }),
    decreases waits.len(),
{
    if waits.len() > 0 {
        lemma_age_waits_leave(state, waits.drop_last(), ages.drop_last());
    }
}

/// The sessions' part of a round leaves the backchannels alone.
pub proof fn session_round_leaves_backchannels(state: ManagerState, seen: Seq<SessionObservation>)
    ensures
        ({
            let after = state.tick_sessions(seen).state;
            &&& after.backchannel_links == state.backchannel_links
            &&& after.starts == state.starts
            &&& after.waits == state.waits
        }),
{
    lemma_settle_sessions_leave(
        ManagerState { sessions: Seq::empty(), ..state },
        state.sessions,
        seen,
    );
}

proof fn lemma_settle_sessions_leave(
    state: ManagerState,
    sessions: Seq<([u8; 16], SessionView)>,
    seen: Seq<SessionObservation>,
)
    ensures
        ({
            let after = state.settle_sessions(sessions, seen).state;
            &&& after.backchannel_links == state.backchannel_links
            &&& after.starts == state.starts
            &&& after.waits == state.waits
        }),
    decreases sessions.len(),
{
    if sessions.len() > 0 {
        lemma_settle_sessions_leave(state, sessions.drop_last(), seen.drop_last());
    }
}

/// The round of a session does not touch the sessions that are on the list.
pub proof fn lemma_settle_session_frame(
    state: ManagerState,
    others: Seq<([u8; 16], SessionView)>,
    entry: ([u8; 16], SessionView),
    look: SessionObservation,
)
    ensures
        ({
            let alone = state.settle_session(entry, look);
            let among = (ManagerState {
                sessions: others + state.sessions,
                ..state
            }).settle_session(entry, look);
            &&& among.results == alone.results
            &&& among.state == (ManagerState {
                sessions: others + alone.state.sessions,
                ..alone.state
            })
        }),
{
    let alone = state.settle_session(entry, look).state;
    let launched = entry.1.launch_waiting(look).session;
    let settled = launched.settle(entry.0, answer_in(look.found), look.elapsed, look.now);
    if settled.keep {
        assert((others + state.sessions).push((entry.0, settled.session)) =~= others
            + alone.sessions);
    }
}

/// The round of one more session comes after the rounds of those before it.
pub proof fn lemma_settle_sessions_step(
    state: ManagerState,
    all: Seq<([u8; 16], SessionView)>,
    at: int,
    seen: Seq<SessionObservation>,
    look: SessionObservation,
)
    requires
        0 <= at < all.len(),
    ensures
        ({
            let before = state.settle_sessions(all.take(at), seen);
            let last = before.state.settle_session(all[at], look);
            let after = state.settle_sessions(all.take(at + 1), seen.push(look));
            &&& after.state == last.state
            &&& after.results == before.results + last.results
        }),
{
    assert(all.take(at + 1).drop_last() =~= all.take(at));
    assert(seen.push(look).drop_last() =~= seen);
}

/// A session that has sent what it could is coherent with the others.
pub proof fn lemma_launch_coherent(
    direct_links: Map<[u8; 16], [u8; 16]>,
    sessions: Seq<([u8; 16], SessionView)>,
    i: int,
    look: SessionObservation,
)
    requires
        links_coherent(direct_links, sessions),
        0 <= i < sessions.len(),
    ensures
        links_coherent(
            direct_links,
            sessions.update(i, (sessions[i].0, sessions[i].1.launch_waiting(look).session)),
        ),
{
    assert(session_coherent(direct_links, sessions[i]));
    lemma_coherent_update(
        direct_links,
        sessions,
        i,
        sessions[i].1.launch_waiting(look).session,
    );
}

/// A session whose round is concluded is coherent with what is left, be it kept or gone.
pub proof fn lemma_conclude_coherent(
    state: ManagerState,
    link_id: [u8; 16],
    session: SessionView,
    rest: Seq<([u8; 16], SessionView)>,
    answer: Option<Result<LinkPayloadSendReceipt, Seq<char>>>,
    elapsed: u128,
    now: Instant,
)
    requires
        links_coherent(state.direct_links, state.sessions + seq![(link_id, session)] + rest),
    ensures
        ({
            let after = state.conclude_session(link_id, session, answer, elapsed, now).state;
            links_coherent(after.direct_links, after.sessions + rest)
        }),
{
    let before = state.sessions + seq![(link_id, session)] + rest;
    let at = state.sessions.len() as int;
    assert(before[at] == (link_id, session));
    assert(session_coherent(state.direct_links, before[at]));
    let settled = session.settle(link_id, answer, elapsed, now);
    let after = state.conclude_session(link_id, session, answer, elapsed, now).state;
    if settled.keep {
        lemma_coherent_update(state.direct_links, before, at, settled.session);
        assert(before.update(at, (link_id, settled.session)) =~= after.sessions + rest);
    } else {
        lemma_coherent_remove(state.direct_links, before, at);
        assert(before.remove(at) =~= after.sessions + rest);
    }
}

/// One session after its round is coherent with what is left, be it kept or gone.
proof fn lemma_settle_session_coherent(
    state: ManagerState,
    entry: ([u8; 16], SessionView),
    rest: Seq<([u8; 16], SessionView)>,
    look: SessionObservation,
)
    requires
        links_coherent(state.direct_links, state.sessions + seq![entry] + rest),
    ensures
        ({
            let after = state.settle_session(entry, look).state;
            links_coherent(after.direct_links, after.sessions + rest)
        }),
{
    let before = state.sessions + seq![entry] + rest;
    let at = state.sessions.len() as int;
    let launched = entry.1.launch_waiting(look);
    assert(before[at] == entry);
    lemma_launch_coherent(state.direct_links, before, at, look);
    assert(before.update(at, (entry.0, launched.session)) =~= state.sessions + seq![
        (entry.0, launched.session),
    ] + rest);
    lemma_conclude_coherent(
        ManagerState { commands: state.commands + launched.commands, ..state },
        entry.0,
        launched.session,
        rest,
        answer_in(look.found),
        look.elapsed,
        look.now,
    );
}

proof fn lemma_settle_sessions_coherent(
    state: ManagerState,
    all: Seq<([u8; 16], SessionView)>,
    seen: Seq<SessionObservation>,
    k: int,
)
    requires
        state.sessions.len() == 0,
        links_coherent(state.direct_links, all),
        seen.len() == all.len(),
        0 <= k <= all.len(),
    ensures
        ({
            let after = state.settle_sessions(all.take(k), seen.take(k)).state;
            links_coherent(after.direct_links, after.sessions + all.skip(k))
        }),
    decreases k,
{
    if k == 0 {
        assert(state.sessions + all.skip(0) =~= all);
    } else {
        lemma_settle_sessions_coherent(state, all, seen, k - 1);
        let before = state.settle_sessions(all.take(k - 1), seen.take(k - 1)).state;
        assert(seen.take(k) =~= seen.take(k - 1).push(seen[k - 1]));
        lemma_settle_sessions_step(state, all, k - 1, seen.take(k - 1), seen[k - 1]);
        assert(before.sessions + all.skip(k - 1) =~= before.sessions + seq![all[k - 1]]
            + all.skip(k));
        lemma_settle_session_coherent(before, all[k - 1], all.skip(k), seen[k - 1]);
    }
}

/// A round leaves the state coherent.
pub proof fn round_keeps_coherence(
    state: ManagerState,
    starts_seen: Seq<StartObservation>,
    ages: Seq<u128>,
    sessions_seen: Seq<SessionObservation>,
)
    requires
        state.coherent(),
        state.saw_sessions(sessions_seen),
    ensures
        state.tick(starts_seen, ages, sessions_seen).state.coherent(),
{
    backchannel_round_leaves_sessions(state, starts_seen, ages);
    let middle = state.tick_backchannels(starts_seen, ages).state;
    let cleared = ManagerState { sessions: Seq::empty(), ..middle };
    let all = middle.sessions;
    let n = all.len() as int;
    lemma_settle_sessions_coherent(cleared, all, sessions_seen, n);
    assert(all.take(n) =~= all);
    assert(sessions_seen.take(n) =~= sessions_seen);
    let after = cleared.settle_sessions(all, sessions_seen).state;
    assert(after.sessions + all.skip(n) =~= after.sessions);
}

/// Whether nothing was seen of an unanswered command that would end its wait.
pub open spec fn start_quiet(seen: StartObservation) -> bool {
    seen.reply is Empty && seen.waited <= BACKCHANNEL_SEND_COMMAND_TIMEOUT
}

/// Whether nothing was seen of a session that would change it: no message is to be sent,
/// no answer came, and the current delivery has time left.
pub open spec fn session_quiet(session: SessionView, seen: SessionObservation) -> bool {
    &&& session.to_be_sent(seen.started) is None
    &&& seen.found is Empty
    &&& session.state is Idle || seen.elapsed <= session.timeout
}

proof fn lemma_quiet_starts(
    state: ManagerState,
    starts: Seq<StartView>,
    seen: Seq<StartObservation>,
)
    requires
        state.starts.len() == 0,
        seen.len() == starts.len(),
        forall|i: int| 0 <= i < seen.len() ==> start_quiet(#[trigger] seen[i]),
    ensures
        state.settle_starts(starts, seen).state == (ManagerState { starts, ..state }),
        state.settle_starts(starts, seen).results.len() == 0,
    decreases starts.len(),
{
    if starts.len() > 0 {
        let (fewer, less) = (starts.drop_last(), seen.drop_last());
        assert forall|i: int| 0 <= i < less.len() implies start_quiet(#[trigger] less[i]) by {
            assert(less[i] == seen[i]);
        }
        lemma_quiet_starts(state, fewer, less);
        assert(start_quiet(seen[seen.len() - 1]));
        assert(fewer.push(starts.last()) =~= starts);
    } else {
        assert(state.starts =~= starts);
    }
}

proof fn lemma_quiet_waits(
    state: ManagerState,
    waits: Seq<(BackchannelProofKey, ProofWaitView)>,
    ages: Seq<u128>,
)
    requires
        state.waits.len() == 0,
        ages.len() == waits.len(),
        forall|i: int| 0 <= i < ages.len() ==> #[trigger] ages[i] <= BACKCHANNEL_DELIVERY_TIMEOUT,
    ensures
        state.age_waits(waits, ages).state == (ManagerState { waits, ..state }),
        state.age_waits(waits, ages).results.len() == 0,
    decreases waits.len(),
{
    if waits.len() > 0 {
        let (fewer, less) = (waits.drop_last(), ages.drop_last());
        assert forall|i: int| 0 <= i < less.len() implies #[trigger] less[i]
            <= BACKCHANNEL_DELIVERY_TIMEOUT by {
            assert(less[i] == ages[i]);
        }
        lemma_quiet_waits(state, fewer, less);
        assert(ages[ages.len() - 1] <= BACKCHANNEL_DELIVERY_TIMEOUT);
        assert(fewer.push(waits.last()) =~= waits);
    } else {
        assert(state.waits =~= waits);
    }
}

proof fn lemma_quiet_sessions(
    state: ManagerState,
    sessions: Seq<([u8; 16], SessionView)>,
    seen: Seq<SessionObservation>,
)
    requires
        state.sessions.len() == 0,
        seen.len() == sessions.len(),
        forall|i: int|
            0 <= i < seen.len() ==> session_quiet(sessions[i].1, #[trigger] seen[i]),
    ensures
        state.settle_sessions(sessions, seen).state == (ManagerState { sessions, ..state }),
        state.settle_sessions(sessions, seen).results.len() == 0,
    decreases sessions.len(),
{
    if sessions.len() > 0 {
        let (fewer, less) = (sessions.drop_last(), seen.drop_last());
        assert forall|i: int| 0 <= i < less.len() implies session_quiet(
            fewer[i].1,
            #[trigger] less[i],
        ) by {
            assert(session_quiet(sessions[i].1, seen[i]));
        }
        lemma_quiet_sessions(state, fewer, less);
        let last = sessions.len() - 1;
        assert(session_quiet(sessions[last].1, seen[last]));
        let before = state.settle_sessions(fewer, less).state;
        let after = before.settle_session(sessions.last(), seen.last()).state;
        assert(fewer.push(sessions.last()) =~= sessions);
        assert(after =~= (ManagerState { sessions, ..state }));
    } else {
        assert(state.sessions =~= sessions);
    }
}

/// A round in which no answer came, nothing ran out of time and no message was to be
/// sent changes nothing and hands nothing out.
pub proof fn quiet_round_changes_nothing(
    state: ManagerState,
    starts_seen: Seq<StartObservation>,
    ages: Seq<u128>,
    sessions_seen: Seq<SessionObservation>,
)
    requires
        starts_seen.len() == state.starts.len(),
        forall|i: int| 0 <= i < starts_seen.len() ==> start_quiet(#[trigger] starts_seen[i]),
        ages.len() == state.waits.len(),
        forall|i: int| 0 <= i < ages.len() ==> #[trigger] ages[i] <= BACKCHANNEL_DELIVERY_TIMEOUT,
        sessions_seen.len() == state.sessions.len(),
        forall|i: int|
            0 <= i < sessions_seen.len() ==> session_quiet(
                state.sessions[i].1,
                #[trigger] sessions_seen[i],
            ),
    ensures
        state.tick(starts_seen, ages, sessions_seen).state == state,
        state.tick(starts_seen, ages, sessions_seen).results.len() == 0,
{
    lemma_quiet_starts(
        ManagerState { starts: Seq::empty(), ..state },
        state.starts,
        starts_seen,
    );
    assert(state.answered(starts_seen).state == state);
    lemma_quiet_waits(ManagerState { waits: Seq::empty(), ..state }, state.waits, ages);
    assert(state.tick_backchannels(starts_seen, ages).state == state);
    lemma_quiet_sessions(
        ManagerState { sessions: Seq::empty(), ..state },
        state.sessions,
        sessions_seen,
    );
}

/// What becomes of a session in its round.
pub open spec fn settled_in(
    entry: ([u8; 16], SessionView),
    seen: SessionObservation,
) -> SettledSession {
    entry.1.launch_waiting(seen).session.settle(
        entry.0,
        answer_in(seen.found),
        seen.elapsed,
        seen.now,
    )
}

/// The session that is left of one after its round, if it goes on.
pub open spec fn left_of(
    entry: ([u8; 16], SessionView),
    seen: SessionObservation,
) -> Option<SessionView> {
    let settled = settled_in(entry, seen);
    if settled.keep {
        Some(settled.session)
    } else {
        None
    }
}

proof fn lemma_sessions_left(
    state: ManagerState,
    all: Seq<([u8; 16], SessionView)>,
    seen: Seq<SessionObservation>,
    k: int,
    i: int,
)
    requires
        state.sessions.len() == 0,
        unique_keys(all),
        seen.len() == all.len(),
        0 <= k <= all.len(),
        0 <= i < all.len(),
    ensures
        value_of(
            state.settle_sessions(all.take(k), seen.take(k)).state.sessions,
            all[i].0,
        ) == if i < k {
            left_of(all[i], seen[i])
        } else {
            None
        },
    decreases k,
{
    let after = state.settle_sessions(all.take(k), seen.take(k)).state.sessions;
    if k == 0 {
        lemma_key_index(after, all[i].0);
    } else {
        let last = k - 1;
        lemma_sessions_left(state, all, seen, last, i);
        let before = state.settle_sessions(all.take(last), seen.take(last)).state;
        assert(seen.take(k) =~= seen.take(last).push(seen[last]));
        lemma_settle_sessions_step(state, all, last, seen.take(last), seen[last]);
        if i < last {
            assert(all[i].0 != all[last].0);
        } else if i > last {
            assert(all[last].0 != all[i].0);
        }
        if let Some(kept) = left_of(all[last], seen[last]) {
            assert(after == before.sessions.push((all[last].0, kept)));
            lemma_value_push(before.sessions, (all[last].0, kept), all[i].0);
        }
    }
}

/// After a round each link has what its own round left of its session: a link is not
/// touched or dropped for what happened on another.
pub proof fn round_leaves_what_goes_on(
    state: ManagerState,
    starts_seen: Seq<StartObservation>,
    ages: Seq<u128>,
    sessions_seen: Seq<SessionObservation>,
    i: int,
)
    requires
        unique_keys(state.sessions),
        sessions_seen.len() == state.sessions.len(),
        0 <= i < state.sessions.len(),
    ensures
        value_of(
            state.tick(starts_seen, ages, sessions_seen).state.sessions,
            state.sessions[i].0,
        ) == left_of(state.sessions[i], sessions_seen[i]),
{
    backchannel_round_leaves_sessions(state, starts_seen, ages);
    let middle = state.tick_backchannels(starts_seen, ages).state;
    let n = state.sessions.len() as int;
    lemma_sessions_left(
        ManagerState { sessions: Seq::empty(), ..middle },
        state.sessions,
        sessions_seen,
        n,
        i,
    );
    assert(state.sessions.take(n) =~= state.sessions);
    assert(sessions_seen.take(n) =~= sessions_seen);
}

proof fn lemma_sessions_from(
    state: ManagerState,
    all: Seq<([u8; 16], SessionView)>,
    seen: Seq<SessionObservation>,
    link_id: [u8; 16],
)
    requires
        state.sessions.len() == 0,
        has_key(state.settle_sessions(all, seen).state.sessions, link_id),
    ensures
        has_key(all, link_id),
    decreases all.len(),
{
    let after = state.settle_sessions(all, seen).state.sessions;
    if all.len() == 0 {
        lemma_key_index(after, link_id);
    } else {
        let (fewer, less) = (all.drop_last(), seen.drop_last());
        let before = state.settle_sessions(fewer, less).state.sessions;
        assert(all =~= fewer.push(all.last()));
        lemma_value_push(fewer, all.last(), link_id);
        if let Some(kept) = left_of(all.last(), seen.last()) {
            lemma_value_push(before, (all.last().0, kept), link_id);
        }
        if has_key(before, link_id) {
            lemma_sessions_from(state, fewer, less, link_id);
        }
    }
}

/// A round opens no link.
pub proof fn round_opens_no_link(
    state: ManagerState,
    starts_seen: Seq<StartObservation>,
    ages: Seq<u128>,
    sessions_seen: Seq<SessionObservation>,
    link_id: [u8; 16],
)
    requires
        has_key(state.tick(starts_seen, ages, sessions_seen).state.sessions, link_id),
    ensures
        has_key(state.sessions, link_id),
{
    backchannel_round_leaves_sessions(state, starts_seen, ages);
    let middle = state.tick_backchannels(starts_seen, ages).state;
    lemma_sessions_from(
        ManagerState { sessions: Seq::empty(), ..middle },
        state.sessions,
        sessions_seen,
        link_id,
    );
}

/// A delivery that is under way and has neither an answer nor time left ends in the
/// round, and its link with it.
pub proof fn overdue_link_is_dropped(
    state: ManagerState,
    starts_seen: Seq<StartObservation>,
    ages: Seq<u128>,
    sessions_seen: Seq<SessionObservation>,
    i: int,
)
    requires
        unique_keys(state.sessions),
        sessions_seen.len() == state.sessions.len(),
        0 <= i < state.sessions.len(),
        state.sessions[i].1.state !is Idle,
        sessions_seen[i].found is Empty,
        sessions_seen[i].elapsed > state.sessions[i].1.timeout,
    ensures
        !has_key(
            state.tick(starts_seen, ages, sessions_seen).state.sessions,
            state.sessions[i].0,
        ),
{
    round_leaves_what_goes_on(state, starts_seen, ages, sessions_seen, i);
}

} // verus!
