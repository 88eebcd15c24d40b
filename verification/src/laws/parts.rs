//! A round is made of the rounds of its parts: what one send or one session hands out,
//! tells and asks for in its own round is there after the whole round.

use vstd::prelude::*;

use super::rounds::{backchannel_round_leaves_sessions, lemma_settle_sessions_step, settled_in};
use super::sending::newly_commanded;
use crate::backchannel::{BackchannelProofKey, ProofWaitView, StartView};
use crate::commands::CommandView;
use crate::events::EventView;
use crate::model::{ManagerState, SessionObservation, StartObservation};
use crate::session::SessionView;

verus! {

/// Whether an event is among those that one state has and another had not.
pub open spec fn newly_told(before: ManagerState, after: ManagerState, event: EventView) -> bool {
    exists|k: int|
        before.events.len() <= k < after.events.len() && #[trigger] after.events[k] == event
}

/// Whether a state has all events and commands of another, in their order, and perhaps
/// more behind them.
pub open spec fn extends(before: ManagerState, after: ManagerState) -> bool {
    &&& before.events.len() <= after.events.len()
    &&& forall|k: int| 0 <= k < before.events.len() ==> #[trigger] after.events[k] == before.events[k]
    &&& before.commands.len() <= after.commands.len()
    &&& forall|k: int|
        0 <= k < before.commands.len() ==> #[trigger] after.commands[k] == before.commands[k]
}

/// What is told on the way is told in the end.
pub proof fn lemma_told_on_the_way(
    first: ManagerState,
    then: ManagerState,
    last: ManagerState,
    event: EventView,
)
    requires
        extends(first, then),
        extends(then, last),
        newly_told(first, then, event) || newly_told(then, last, event),
    ensures
        newly_told(first, last, event),
{
    if newly_told(first, then, event) {
        let k = choose|k: int|
            first.events.len() <= k < then.events.len() && #[trigger] then.events[k] == event;
        assert(last.events[k] == event);
    } else {
        let k = choose|k: int|
            then.events.len() <= k < last.events.len() && #[trigger] last.events[k] == event;
        assert(first.events.len() <= k);
    }
}

/// What is commanded on the way is commanded in the end.
pub proof fn lemma_commanded_on_the_way(
    first: ManagerState,
    then: ManagerState,
    last: ManagerState,
    command: CommandView,
)
    requires
        extends(first, then),
        extends(then, last),
        newly_commanded(first, then, command) || newly_commanded(then, last, command),
    ensures
        newly_commanded(first, last, command),
{
    if newly_commanded(first, then, command) {
        let k = choose|k: int|
            first.commands.len() <= k < then.commands.len() && #[trigger] then.commands[k]
                == command;
        assert(last.commands[k] == command);
    } else {
        let k = choose|k: int|
            then.commands.len() <= k < last.commands.len() && #[trigger] last.commands[k]
                == command;
        assert(first.commands.len() <= k);
    }
}

proof fn lemma_starts_extend(
    state: ManagerState,
    starts: Seq<StartView>,
    seen: Seq<StartObservation>,
)
    ensures
        extends(state, state.settle_starts(starts, seen).state),
    decreases starts.len(),
{
    if starts.len() > 0 {
        lemma_starts_extend(state, starts.drop_last(), seen.drop_last());
        let before = state.settle_starts(starts.drop_last(), seen.drop_last()).state;
        assert(extends(before, before.settle_start(starts.last(), seen.last()).state));
    }
}

/// What one send command hands out and tells is there after the round of all of them.
/// Where it hands its message back, its backchannel is gone.
pub proof fn lemma_start_part(
    state: ManagerState,
    starts: Seq<StartView>,
    seen: Seq<StartObservation>,
    i: int,
)
    requires
        seen.len() == starts.len(),
        0 <= i < starts.len(),
    ensures
        ({
            let alone = state.settle_start(starts[i], seen[i]);
            let round = state.settle_starts(starts, seen);
            &&& alone.results.len() == 1 ==> {
                &&& round.results.contains(alone.results[0])
                &&& !round.state.backchannel_links.contains_key(starts[i].dest_hash)
            }
            &&& alone.state.events.len() > state.events.len() ==> newly_told(
                state,
                round.state,
                alone.state.events.last(),
            )
        }),
    decreases starts.len(),
{
    let (fewer, less) = (starts.drop_last(), seen.drop_last());
    let before = state.settle_starts(fewer, less);
    let last = before.state.settle_start(starts.last(), seen.last());
    let round = state.settle_starts(starts, seen);
    let alone = state.settle_start(starts[i], seen[i]);
    lemma_starts_extend(state, fewer, less);
    assert(extends(before.state, last.state));
    if i < starts.len() - 1 {
        lemma_start_part(state, fewer, less, i);
        if alone.results.len() == 1 {
            let j = choose|j: int|
                0 <= j < before.results.len() && before.results[j] == alone.results[0];
            assert(round.results[j] == alone.results[0]);
        }
        if alone.state.events.len() > state.events.len() {
            lemma_told_on_the_way(
                state,
                before.state,
                last.state,
                alone.state.events.last(),
            );
        }
    } else {
        assert(last.results == alone.results);
        if alone.results.len() == 1 {
            assert(round.results[before.results.len() as int] == alone.results[0]);
        }
        if alone.state.events.len() > state.events.len() {
            let at = before.state.events.len() as int;
            assert(last.state.events[at] == alone.state.events.last());
            assert(newly_told(before.state, last.state, alone.state.events.last()));
            lemma_told_on_the_way(state, before.state, last.state, alone.state.events.last());
        }
    }
}

/// Whether a send command goes on waiting for its answer.
pub open spec fn still_unanswered(seen: StartObservation) -> bool {
    seen.reply is Empty && seen.waited <= 10_000_000_000
}

/// Whether a send command is one of some that goes on waiting for its answer.
pub open spec fn is_left_unanswered(
    start: StartView,
    starts: Seq<StartView>,
    seen: Seq<StartObservation>,
) -> bool {
    exists|i: int|
        0 <= i < starts.len() && start == starts[i] && still_unanswered(#[trigger] seen[i])
}

/// The send commands that are left are those that go on waiting.
pub proof fn lemma_starts_left(
    state: ManagerState,
    starts: Seq<StartView>,
    seen: Seq<StartObservation>,
)
    requires
        state.starts.len() == 0,
        seen.len() == starts.len(),
    ensures
        ({
            let left = state.settle_starts(starts, seen).state.starts;
            &&& forall|i: int|
                0 <= i < starts.len() && still_unanswered(#[trigger] seen[i]) ==> left.contains(
                    starts[i],
                )
            &&& forall|k: int|
                0 <= k < left.len() ==> is_left_unanswered(#[trigger] left[k], starts, seen)
        }),
    decreases starts.len(),
{
    if starts.len() > 0 {
        let (fewer, less) = (starts.drop_last(), seen.drop_last());
        lemma_starts_left(state, fewer, less);
        let before = state.settle_starts(fewer, less).state;
        let left = state.settle_starts(starts, seen).state.starts;
        let last = starts.len() - 1;
        assert forall|i: int|
            0 <= i < starts.len() && still_unanswered(#[trigger] seen[i]) implies left.contains(
            starts[i],
        ) by {
            if i < last {
                assert(less[i] == seen[i]);
                assert(before.starts.contains(fewer[i]));
                let j = choose|j: int|
                    0 <= j < before.starts.len() && before.starts[j] == fewer[i];
                assert(left[j] == starts[i]);
            } else {
                assert(left[left.len() - 1] == starts[i]);
            }
        }
        assert forall|k: int| 0 <= k < left.len() implies is_left_unanswered(
            #[trigger] left[k],
            starts,
            seen,
        ) by {
            if k < before.starts.len() {
                assert(left[k] == before.starts[k]);
                assert(is_left_unanswered(before.starts[k], fewer, less));
                let i = choose|i: int|
                    0 <= i < fewer.len() && before.starts[k] == fewer[i] && still_unanswered(
                        #[trigger] less[i],
                    );
                assert(seen[i] == less[i]);
            } else {
                assert(seen[last] == seen.last());
            }
        }
    }
}

proof fn lemma_waits_extend(
    state: ManagerState,
    waits: Seq<(BackchannelProofKey, ProofWaitView)>,
    ages: Seq<u128>,
)
    ensures
        extends(state, state.age_waits(waits, ages).state),
    decreases waits.len(),
{
    if waits.len() > 0 {
        lemma_waits_extend(state, waits.drop_last(), ages.drop_last());
        let before = state.age_waits(waits.drop_last(), ages.drop_last()).state;
        assert(extends(before, before.age_wait(waits.last(), ages.last()).state));
    }
}

/// What one send that waits for its proof hands out and tells is there after the round
/// of all of them. Where it hands its message back, its backchannel is gone.
pub proof fn lemma_wait_part(
    state: ManagerState,
    waits: Seq<(BackchannelProofKey, ProofWaitView)>,
    ages: Seq<u128>,
    i: int,
)
    requires
        ages.len() == waits.len(),
        0 <= i < waits.len(),
    ensures
        ({
            let alone = state.age_wait(waits[i], ages[i]);
            let round = state.age_waits(waits, ages);
            alone.results.len() == 1 ==> {
                &&& round.results.contains(alone.results[0])
                &&& !round.state.backchannel_links.contains_key(waits[i].1.dest_hash)
                &&& newly_told(state, round.state, alone.state.events.last())
            }
        }),
    decreases waits.len(),
{
    let (fewer, less) = (waits.drop_last(), ages.drop_last());
    let before = state.age_waits(fewer, less);
    let last = before.state.age_wait(waits.last(), ages.last());
    let round = state.age_waits(waits, ages);
    let alone = state.age_wait(waits[i], ages[i]);
    lemma_waits_extend(state, fewer, less);
    assert(extends(before.state, last.state));
    if alone.results.len() == 1 {
        if i < waits.len() - 1 {
            lemma_wait_part(state, fewer, less, i);
            let j = choose|j: int|
                0 <= j < before.results.len() && before.results[j] == alone.results[0];
            assert(round.results[j] == alone.results[0]);
        } else {
            assert(round.results[before.results.len() as int] == alone.results[0]);
            let at = before.state.events.len() as int;
            assert(last.state.events[at] == alone.state.events.last());
            assert(newly_told(before.state, last.state, alone.state.events.last()));
        }
        lemma_told_on_the_way(state, before.state, last.state, alone.state.events.last());
    }
}

/// Whether a send is one of some that has waited no longer than it may.
pub open spec fn is_left_waiting(
    entry: (BackchannelProofKey, ProofWaitView),
    waits: Seq<(BackchannelProofKey, ProofWaitView)>,
    ages: Seq<u128>,
) -> bool {
    exists|i: int|
        0 <= i < waits.len() && entry == waits[i] && #[trigger] ages[i] <= 360_000_000_000
}

/// The sends that go on waiting for their proofs are those that are not overdue.
pub proof fn lemma_waits_left(
    state: ManagerState,
    waits: Seq<(BackchannelProofKey, ProofWaitView)>,
    ages: Seq<u128>,
)
    requires
        state.waits.len() == 0,
        ages.len() == waits.len(),
    ensures
        ({
            let left = state.age_waits(waits, ages).state.waits;
            &&& forall|i: int|
                0 <= i < waits.len() && #[trigger] ages[i] <= 360_000_000_000 ==> left.contains(
                    waits[i],
                )
            &&& forall|k: int|
                0 <= k < left.len() ==> is_left_waiting(#[trigger] left[k], waits, ages)
        }),
    decreases waits.len(),
{
    if waits.len() > 0 {
        let (fewer, less) = (waits.drop_last(), ages.drop_last());
        lemma_waits_left(state, fewer, less);
        let before = state.age_waits(fewer, less).state;
        let left = state.age_waits(waits, ages).state.waits;
        let last = waits.len() - 1;
        assert forall|i: int|
            0 <= i < waits.len() && #[trigger] ages[i] <= 360_000_000_000 implies left.contains(
            waits[i],
        ) by {
            if i < last {
                assert(less[i] == ages[i]);
                assert(before.waits.contains(fewer[i]));
                let j = choose|j: int|
                    0 <= j < before.waits.len() && before.waits[j] == fewer[i];
                assert(left[j] == waits[i]);
            } else {
                assert(left[left.len() - 1] == waits[i]);
            }
        }
        assert forall|k: int| 0 <= k < left.len() implies is_left_waiting(
            #[trigger] left[k],
            waits,
            ages,
        ) by {
            if k < before.waits.len() {
                assert(left[k] == before.waits[k]);
                assert(is_left_waiting(before.waits[k], fewer, less));
                let i = choose|i: int|
                    0 <= i < fewer.len() && before.waits[k] == fewer[i] && #[trigger] less[i]
                        <= 360_000_000_000;
                assert(ages[i] == less[i]);
            } else {
                assert(ages[last] == ages.last());
            }
        }
    }
}

proof fn lemma_session_extends(
    state: ManagerState,
    entry: ([u8; 16], SessionView),
    seen: SessionObservation,
)
    ensures
        extends(state, state.settle_session(entry, seen).state),
{
}

proof fn lemma_sessions_part(
    state: ManagerState,
    all: Seq<([u8; 16], SessionView)>,
    seen: Seq<SessionObservation>,
    k: int,
    i: int,
)
    requires
        seen.len() == all.len(),
        0 <= i < all.len(),
        0 <= k <= all.len(),
    ensures
        ({
            let settled = settled_in(all[i], seen[i]);
            let round = state.settle_sessions(all.take(k), seen.take(k));
            &&& extends(state, round.state)
            &&& i < k ==> {
                &&& forall|j: int|
                    0 <= j < settled.results.len() ==> round.results.contains(
                        #[trigger] settled.results[j],
                    )
                &&& forall|j: int|
                    0 <= j < settled.events.len() ==> newly_told(
                        state,
                        round.state,
                        #[trigger] settled.events[j],
                    )
                &&& !settled.keep ==> newly_commanded(
                    state,
                    round.state,
                    CommandView::Close { link_id: all[i].0 },
                )
            }
        }),
    decreases k,
{
    if k > 0 {
        let at = k - 1;
        lemma_sessions_part(state, all, seen, at, i);
        let before = state.settle_sessions(all.take(at), seen.take(at));
        assert(seen.take(k) =~= seen.take(at).push(seen[at]));
        lemma_settle_sessions_step(state, all, at, seen.take(at), seen[at]);
        let last = before.state.settle_session(all[at], seen[at]);
        let round = state.settle_sessions(all.take(k), seen.take(k));
        let settled = settled_in(all[i], seen[i]);
        lemma_session_extends(before.state, all[at], seen[at]);
        if i < k {
            let close = CommandView::Close { link_id: all[i].0 };
            if i == at {
                assert(last.results == settled.results);
                if !settled.keep {
                    let c = last.state.commands.len() - 1;
                    assert(last.state.commands[c] == close);
                    assert(newly_commanded(before.state, last.state, close));
                }
            }
            assert forall|j: int| 0 <= j < settled.results.len() implies round.results.contains(
                #[trigger] settled.results[j],
            ) by {
                if i < at {
                    let n = choose|n: int|
                        0 <= n < before.results.len() && before.results[n] == settled.results[j];
                    assert(round.results[n] == settled.results[j]);
                } else {
                    assert(round.results[before.results.len() + j] == settled.results[j]);
                }
            }
            assert forall|j: int| 0 <= j < settled.events.len() implies newly_told(
                state,
                round.state,
                #[trigger] settled.events[j],
            ) by {
                if i == at {
                    assert(last.state.events[before.state.events.len() + j]
                        == settled.events[j]);
                    assert(newly_told(before.state, last.state, settled.events[j]));
                }
                lemma_told_on_the_way(state, before.state, last.state, settled.events[j]);
            }
            if !settled.keep {
                lemma_commanded_on_the_way(state, before.state, last.state, close);
            }
        }
    }
}

/// A round keeps what was told and asked for before, and its two halves follow one
/// another.
pub proof fn lemma_round_extends(
    state: ManagerState,
    starts_seen: Seq<StartObservation>,
    ages: Seq<u128>,
    sessions_seen: Seq<SessionObservation>,
)
    requires
        sessions_seen.len() == state.sessions.len(),
    ensures
        extends(state, state.answered(starts_seen).state),
        extends(
            state.answered(starts_seen).state,
            state.tick_backchannels(starts_seen, ages).state,
        ),
        extends(state, state.tick_backchannels(starts_seen, ages).state),
        extends(
            state.tick_backchannels(starts_seen, ages).state,
            state.tick(starts_seen, ages, sessions_seen).state,
        ),
        extends(state, state.tick(starts_seen, ages, sessions_seen).state),
{
    let answered = state.answered(starts_seen).state;
    lemma_starts_extend(ManagerState { starts: Seq::empty(), ..state }, state.starts, starts_seen);
    lemma_waits_extend(ManagerState { waits: Seq::empty(), ..answered }, answered.waits, ages);
    backchannel_round_leaves_sessions(state, starts_seen, ages);
    let middle = state.tick_backchannels(starts_seen, ages).state;
    let n = state.sessions.len() as int;
    if n > 0 {
        lemma_sessions_part(
            ManagerState { sessions: Seq::empty(), ..middle },
            state.sessions,
            sessions_seen,
            n,
            0,
        );
    }
    assert(state.sessions.take(n) =~= state.sessions);
    assert(sessions_seen.take(n) =~= sessions_seen);
}

/// What one session hands out, tells and asks for in its round is there after the whole
/// round.
pub proof fn lemma_session_part(
    state: ManagerState,
    starts_seen: Seq<StartObservation>,
    ages: Seq<u128>,
    sessions_seen: Seq<SessionObservation>,
    i: int,
)
    requires
        sessions_seen.len() == state.sessions.len(),
        0 <= i < state.sessions.len(),
    ensures
        ({
            let settled = settled_in(state.sessions[i], sessions_seen[i]);
            let round = state.tick(starts_seen, ages, sessions_seen);
            &&& forall|j: int|
                0 <= j < settled.results.len() ==> round.results.contains(
                    #[trigger] settled.results[j],
                )
            &&& forall|j: int|
                0 <= j < settled.events.len() ==> newly_told(
                    state,
                    round.state,
                    #[trigger] settled.events[j],
                )
            &&& !settled.keep ==> newly_commanded(
                state,
                round.state,
                CommandView::Close { link_id: state.sessions[i].0 },
            )
        }),
{
    backchannel_round_leaves_sessions(state, starts_seen, ages);
    lemma_round_extends(state, starts_seen, ages, sessions_seen);
    let first = state.tick_backchannels(starts_seen, ages);
    let cleared = ManagerState { sessions: Seq::empty(), ..first.state };
    let second = first.state.tick_sessions(sessions_seen);
    let round = state.tick(starts_seen, ages, sessions_seen);
    let n = state.sessions.len() as int;
    lemma_sessions_part(cleared, state.sessions, sessions_seen, n, i);
    assert(state.sessions.take(n) =~= state.sessions);
    assert(sessions_seen.take(n) =~= sessions_seen);
    let settled = settled_in(state.sessions[i], sessions_seen[i]);
    assert forall|j: int| 0 <= j < settled.results.len() implies round.results.contains(
        #[trigger] settled.results[j],
    ) by {
        let m = choose|m: int|
            0 <= m < second.results.len() && second.results[m] == settled.results[j];
        assert(round.results[first.results.len() + m] == settled.results[j]);
    }
    assert forall|j: int| 0 <= j < settled.events.len() implies newly_told(
        state,
        round.state,
        #[trigger] settled.events[j],
    ) by {
        assert(newly_told(cleared, second.state, settled.events[j]));
        assert(newly_told(first.state, round.state, settled.events[j]));
        lemma_told_on_the_way(state, first.state, round.state, settled.events[j]);
    }
    if !settled.keep {
        let close = CommandView::Close { link_id: state.sessions[i].0 };
        assert(newly_commanded(cleared, second.state, close));
        assert(newly_commanded(first.state, round.state, close));
        lemma_commanded_on_the_way(state, first.state, round.state, close);
    }
}

} // verus!
