//! Every result that is handed out is told of by one event, in the same order.

use vstd::prelude::*;

use crate::backchannel::{BackchannelProofKey, ProofWaitView, StartView};
use crate::events::{EventView, ResultView};
use crate::model::{ManagerState, Round, SessionObservation, StartObservation};
use crate::session::{answer_in, SessionView};
use crate::types::LinkState;

verus! {

/// Whether an event tells of a result: of the same ending, link and message, and, where
/// a message is handed back, of its destination, its attempts and the reason.
pub open spec fn tells_of(event: EventView, result: ResultView) -> bool {
    match result {
        ResultView::Complete { link_id, msg_hash } => {
            &&& event.kind is Delivered
            &&& event.link_id == link_id
            &&& event.msg_hash == msg_hash
            &&& event.reason is None
        },
        ResultView::Rejected { link_id, msg_hash, dest_hash, message, reason } => {
            &&& event.kind is Rejected
            &&& event.link_id == link_id
            &&& event.msg_hash == msg_hash
            &&& event.dest_hash == dest_hash
            &&& event.attempts == message.delivery_attempts
            &&& event.reason == Some(reason)
        },
        ResultView::Failed { link_id, msg_hash, dest_hash, message, reason } => {
            &&& event.kind is Failed
            &&& event.link_id == link_id
            &&& event.msg_hash == msg_hash
            &&& event.dest_hash == dest_hash
            &&& event.attempts == message.delivery_attempts
            &&& event.progress == Some(message.progress)
            &&& event.reason == Some(reason)
        },
    }
}

/// The events that say that a delivery has ended.
pub open spec fn endings(events: Seq<EventView>) -> Seq<EventView> {
    events.filter(|event: EventView| event.is_terminal())
}

/// Whether the endings among some events tell of some results, one by one.
pub open spec fn tell(events: Seq<EventView>, results: Seq<ResultView>) -> bool {
    &&& endings(events).len() == results.len()
    &&& forall|i: int|
        0 <= i < results.len() ==> tells_of(endings(events)[i], #[trigger] results[i])
}

/// Whether what was handed out on the way from one state to another was told of.
pub open spec fn told(before: ManagerState, round: Round) -> bool {
    exists|news: Seq<EventView>|
        {
            &&& round.state.events == before.events + news
            &&& #[trigger] tell(news, round.results)
        }
}

/// Events that tell of results one by one are endings.
proof fn lemma_tell_all(events: Seq<EventView>, results: Seq<ResultView>)
    requires
        events.len() == results.len(),
        forall|i: int| 0 <= i < results.len() ==> tells_of(events[i], #[trigger] results[i]),
    ensures
        tell(events, results),
    decreases events.len(),
{
    reveal(Seq::filter);
    if events.len() > 0 {
        let last = results.len() - 1;
        let (fewer, less) = (events.drop_last(), results.drop_last());
        assert forall|i: int| 0 <= i < less.len() implies tells_of(
            fewer[i],
            #[trigger] less[i],
        ) by {
            assert(less[i] == results[i]);
        }
        lemma_tell_all(fewer, less);
        assert(tells_of(events[last], results[last]));
        assert(endings(events) =~= endings(fewer).push(events.last()));
        assert forall|i: int| 0 <= i < results.len() implies tells_of(
            endings(events)[i],
            #[trigger] results[i],
        ) by {
            if i < last {
                assert(tells_of(endings(fewer)[i], less[i]));
            }
        }
    }
}

/// Nothing tells of nothing.
proof fn lemma_tell_none()
    ensures
        tell(Seq::empty(), Seq::empty()),
{
    lemma_tell_all(Seq::empty(), Seq::empty());
}

/// An event that is no ending tells of nothing.
proof fn lemma_tell_stage(event: EventView)
    requires
        !event.is_terminal(),
    ensures
        tell(seq![event], Seq::empty()),
{
    reveal(Seq::filter);
    let none = Seq::<EventView>::empty();
    none.lemma_filter_push(event, |event: EventView| event.is_terminal());
    assert(seq![event] =~= none.push(event));
    assert(endings(none) =~= none);
}

/// One event tells of one result.
proof fn lemma_tell_one(event: EventView, result: ResultView)
    requires
        tells_of(event, result),
    ensures
        tell(seq![event], seq![result]),
{
    lemma_tell_all(seq![event], seq![result]);
}

/// What is told of one after the other is told of together.
proof fn lemma_tell_add(
    first: Seq<EventView>,
    handed_first: Seq<ResultView>,
    then: Seq<EventView>,
    handed_then: Seq<ResultView>,
)
    requires
        tell(first, handed_first),
        tell(then, handed_then),
    ensures
        tell(first + then, handed_first + handed_then),
{
    let p = |event: EventView| event.is_terminal();
    Seq::filter_distributes_over_add(first, then, p);
    let (events, results) = (endings(first + then), handed_first + handed_then);
    let n = handed_first.len() as int;
    assert forall|i: int| 0 <= i < results.len() implies tells_of(
        events[i],
        #[trigger] results[i],
    ) by {
        if i < n {
            assert(tells_of(endings(first)[i], handed_first[i]));
        } else {
            assert(tells_of(endings(then)[i - n], handed_then[i - n]));
        }
    }
}

/// The news that tell of what was handed out.
proof fn lemma_told_by(before: ManagerState, round: Round, news: Seq<EventView>)
    requires
        round.state.events == before.events + news,
        tell(news, round.results),
    ensures
        told(before, round),
{
}

/// Two rounds in a row that tell of their results do so together.
proof fn lemma_told_then(before: ManagerState, first: Round, second: Round)
    requires
        told(before, first),
        told(first.state, second),
    ensures
        told(
            before,
            Round { state: second.state, results: first.results + second.results },
        ),
{
    let a = choose|news: Seq<EventView>|
        {
            &&& first.state.events == before.events + news
            &&& #[trigger] tell(news, first.results)
        };
    let b = choose|news: Seq<EventView>|
        {
            &&& second.state.events == first.state.events + news
            &&& #[trigger] tell(news, second.results)
        };
    lemma_tell_add(a, first.results, b, second.results);
    assert(second.state.events =~= before.events + (a + b));
    lemma_told_by(
        before,
        Round { state: second.state, results: first.results + second.results },
        a + b,
    );
}

/// The failure of a session is told of, one event for each message.
proof fn lemma_tell_failed(session: SessionView, link_id: [u8; 16], reason: Seq<char>)
    ensures
        tell(session.failed_events(link_id, reason), session.failed_results(link_id, reason)),
{
    let events = session.failed_events(link_id, reason);
    let results = session.failed_results(link_id, reason);
    assert forall|i: int| 0 <= i < results.len() implies tells_of(
        events[i],
        #[trigger] results[i],
    ) by {
        if i > 0 {
            let queued = session.queue[i - 1];
            assert(events[i] == queued.failed_event(link_id, session.dest_hash, reason));
            assert(results[i] == queued.failed_result(link_id, session.dest_hash, reason));
        }
    }
    lemma_tell_all(events, results);
}

/// Nothing told and nothing handed out.
proof fn lemma_told_nothing(before: ManagerState, round: Round)
    requires
        round.state.events == before.events,
        round.results.len() == 0,
    ensures
        told(before, round),
{
    lemma_tell_none();
    assert(round.results =~= Seq::<ResultView>::empty());
    assert(round.state.events =~= before.events + Seq::<EventView>::empty());
}

/// One event that tells of the one result.
proof fn lemma_told_one(before: ManagerState, round: Round, event: EventView)
    requires
        round.state.events == before.events.push(event),
        round.results.len() == 1,
        tells_of(event, round.results[0]),
    ensures
        told(before, round),
{
    lemma_tell_one(event, round.results[0]);
    assert(round.results =~= seq![round.results[0]]);
    assert(round.state.events =~= before.events + seq![event]);
}

proof fn lemma_told_start(state: ManagerState, start: StartView, seen: StartObservation)
    ensures
        told(state, state.settle_start(start, seen)),
{
    let settled = state.settle_start(start, seen);
    if settled.results.len() == 1 {
        lemma_told_one(state, settled, settled.state.events.last());
    } else if settled.state.events.len() == state.events.len() {
        lemma_told_nothing(state, settled);
    } else {
        let event = settled.state.events.last();
        lemma_tell_stage(event);
        assert(settled.results =~= Seq::<ResultView>::empty());
        assert(settled.state.events =~= state.events + seq![event]);
    }
}

proof fn lemma_told_starts(
    state: ManagerState,
    starts: Seq<StartView>,
    seen: Seq<StartObservation>,
)
    ensures
        told(state, state.settle_starts(starts, seen)),
    decreases starts.len(),
{
    if starts.len() == 0 {
        lemma_told_nothing(state, state.settle_starts(starts, seen));
    } else {
        let before = state.settle_starts(starts.drop_last(), seen.drop_last());
        lemma_told_starts(state, starts.drop_last(), seen.drop_last());
        lemma_told_start(before.state, starts.last(), seen.last());
        lemma_told_then(
            state,
            before,
            before.state.settle_start(starts.last(), seen.last()),
        );
    }
}

proof fn lemma_told_waits(
    state: ManagerState,
    waits: Seq<(BackchannelProofKey, ProofWaitView)>,
    ages: Seq<u128>,
)
    ensures
        told(state, state.age_waits(waits, ages)),
    decreases waits.len(),
{
    if waits.len() == 0 {
        lemma_told_nothing(state, state.age_waits(waits, ages));
    } else {
        let before = state.age_waits(waits.drop_last(), ages.drop_last());
        let last = before.state.age_wait(waits.last(), ages.last());
        lemma_told_waits(state, waits.drop_last(), ages.drop_last());
        if last.results.len() == 0 {
            lemma_told_nothing(before.state, last);
        } else {
            lemma_told_one(before.state, last, last.state.events.last());
        }
        lemma_told_then(state, before, last);
    }
}

proof fn lemma_told_session(
    state: ManagerState,
    entry: ([u8; 16], SessionView),
    seen: SessionObservation,
)
    ensures
        told(state, state.settle_session(entry, seen)),
{
    let launched = entry.1.launch_waiting(seen).session;
    let settled = launched.settle(entry.0, answer_in(seen.found), seen.elapsed, seen.now);
    let round = state.settle_session(entry, seen);
    match answer_in(seen.found) {
        Some(Ok(receipt)) => {
            lemma_tell_one(settled.events[0], settled.results[0]);
            assert(settled.events =~= seq![settled.events[0]]);
            assert(settled.results =~= seq![settled.results[0]]);
        },
        Some(Err(reason)) => {
            let closed = SessionView {
                link_state: LinkState::Closed,
                runtime_result: None,
                ..launched
            };
            lemma_tell_failed(closed, entry.0, reason);
        },
        None => {
            lemma_tell_failed(launched, entry.0, "delivery timeout"@);
            lemma_tell_none();
        },
    }
    assert(settled.results =~= round.results);
    lemma_told_by(state, round, settled.events);
}

proof fn lemma_told_sessions(
    state: ManagerState,
    sessions: Seq<([u8; 16], SessionView)>,
    seen: Seq<SessionObservation>,
)
    ensures
        told(state, state.settle_sessions(sessions, seen)),
    decreases sessions.len(),
{
    if sessions.len() == 0 {
        lemma_told_nothing(state, state.settle_sessions(sessions, seen));
    } else {
        let before = state.settle_sessions(sessions.drop_last(), seen.drop_last());
        lemma_told_sessions(state, sessions.drop_last(), seen.drop_last());
        lemma_told_session(before.state, sessions.last(), seen.last());
        lemma_told_then(
            state,
            before,
            before.state.settle_session(sessions.last(), seen.last()),
        );
    }
}

/// Every result of a round is told of by one event, in the same order, and no event
/// tells of an ending that has no result.
pub proof fn round_tells_of_its_results(
    state: ManagerState,
    starts_seen: Seq<StartObservation>,
    ages: Seq<u128>,
    sessions_seen: Seq<SessionObservation>,
)
    ensures
        told(state, state.tick(starts_seen, ages, sessions_seen)),
{
    let answered = state.answered(starts_seen);
    let cleared = ManagerState { starts: Seq::empty(), ..state };
    lemma_told_starts(cleared, state.starts, starts_seen);
    assert(told(state, answered));
    let aged = answered.state.aged(ages);
    lemma_told_waits(
        ManagerState { waits: Seq::empty(), ..answered.state },
        answered.state.waits,
        ages,
    );
    assert(told(answered.state, aged));
    lemma_told_then(state, answered, aged);
    let first = state.tick_backchannels(starts_seen, ages);
    let second = first.state.tick_sessions(sessions_seen);
    lemma_told_sessions(
        ManagerState { sessions: Seq::empty(), ..first.state },
        first.state.sessions,
        sessions_seen,
    );
    assert(told(first.state, second));
    lemma_told_then(state, first, second);
}

/// Every result of a failure by message hash is told of by one event, in the same
/// order.
pub proof fn failing_by_hash_tells_of_its_results(
    state: ManagerState,
    msg_hash: [u8; 32],
    reason: Seq<char>,
)
    ensures
        told(state, state.fail_by_hash(msg_hash, reason)),
{
    let failed = state.fail_by_hash(msg_hash, reason);
    match state.session_holding(msg_hash) {
        Some(i) if state.sessions[i].1.msg_hash == Some(msg_hash) => {
            let (link_id, session) = state.sessions[i];
            lemma_tell_failed(session, link_id, reason);
        },
        _ => {
            if failed.results.len() == 0 {
                lemma_told_nothing(state, failed);
            } else {
                lemma_told_one(state, failed, failed.state.events.last());
            }
        },
    }
}

/// Every result of a closed inbound link is told of by one event, in the same order.
pub proof fn closed_link_tells_of_its_results(
    state: ManagerState,
    link_id: [u8; 16],
    reason: Seq<char>,
)
    ensures
        told(state, state.fail_backchannel_link(link_id, reason)),
{
    let lost = state.fail_backchannel_link(link_id, reason);
    let starts = state.starts.filter(|start: StartView| start.link_id == link_id);
    let waits = state.waits.filter(
        |entry: (BackchannelProofKey, ProofWaitView)| entry.1.link_id == link_id,
    );
    let start_events = starts.map_values(|start: StartView| start.failed_event(reason));
    let start_results = starts.map_values(|start: StartView| start.failed_result(reason));
    let wait_events = waits.map_values(
        |entry: (BackchannelProofKey, ProofWaitView)| entry.1.failed_event(reason),
    );
    let wait_results = waits.map_values(
        |entry: (BackchannelProofKey, ProofWaitView)| entry.1.failed_result(reason),
    );
    assert forall|i: int| 0 <= i < start_results.len() implies tells_of(
        start_events[i],
        #[trigger] start_results[i],
    ) by {
        assert(start_events[i] == starts[i].failed_event(reason));
    }
    assert forall|i: int| 0 <= i < wait_results.len() implies tells_of(
        wait_events[i],
        #[trigger] wait_results[i],
    ) by {
        assert(wait_events[i] == waits[i].1.failed_event(reason));
    }
    lemma_tell_all(start_events, start_results);
    lemma_tell_all(wait_events, wait_results);
    lemma_tell_add(start_events, start_results, wait_events, wait_results);
    assert(lost.state.events =~= state.events + (start_events + wait_events));
    lemma_told_by(state, lost, start_events + wait_events);
}

/// The result of a proof is told of by one event.
pub proof fn proof_tells_of_its_result(state: ManagerState, key: BackchannelProofKey)
    requires
        state.proof_result(key) is Some,
    ensures
        told(
            state,
            Round { state: state.proved(key), results: seq![state.proof_result(key)->0] },
        ),
{
    let round = Round { state: state.proved(key), results: seq![state.proof_result(key)->0] };
    lemma_told_one(state, round, round.state.events.last());
}

} // verus!
