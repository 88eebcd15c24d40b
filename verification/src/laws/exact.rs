//! A round hands out, tells and asks for what it has to, and nothing else.

use vstd::prelude::*;

use super::following::{given_back, told_back, told_receipt, why_it_ends};
use super::link_rounds::{told_delivered, told_failed, told_waiting, why_it_fails};
use super::parts::still_unanswered;
use super::rounds::{
    backchannel_round_leaves_sessions, lemma_settle_sessions_step,
    session_round_leaves_backchannels,
};
use crate::backchannel::{BackchannelProofKey, ProofWaitView, StartView};
use crate::channel::Poll;
use crate::commands::CommandView;
use crate::events::{EventView, ResultView};
use crate::model::{
    links_coherent, session_coherent, ManagerState, SessionObservation, StartObservation,
};
use crate::queue::QueuedView;
use crate::session::SessionView;
use crate::types::DeliveryRepresentation;

verus! {

/// What one link asks of the runtime in a round: to send a message that can go out, and to
/// close the link where it is not kept.
pub open spec fn asked_by(
    entry: ([u8; 16], SessionView),
    seen: SessionObservation,
) -> Seq<CommandView> {
    let (link_id, session) = entry;
    let front = session.at_the_front();
    let send = if session.has_something_to_send() && session.front_is_sendable() {
        seq![
            CommandView::SendPayload {
                link_id,
                payload: match front.packed_override {
                    Some(bytes) => bytes,
                    None => front.message.packed->Ok_0,
                },
                auto_compress: if front.packed_override is Some {
                    front.auto_compress
                } else {
                    front.message.auto_compress
                },
                deadline: session.timeout,
                identify_before_send: false,
                result_tx: seen.result_tx,
            },
        ]
    } else {
        Seq::empty()
    };
    let complete = seen.found matches Poll::Ready(Ok(_));
    if why_it_fails(session, seen) is Some || (complete && !session.reusable) {
        send.push(CommandView::Close { link_id })
    } else {
        send
    }
}

/// What some links ask of the runtime in a round, one after the other.
pub open spec fn asked_by_all(
    sessions: Seq<([u8; 16], SessionView)>,
    seen: Seq<SessionObservation>,
) -> Seq<CommandView>
    decreases sessions.len(),
{
    if sessions.len() == 0 {
        Seq::empty()
    } else {
        asked_by_all(sessions.drop_last(), seen.drop_last()) + asked_by(
            sessions.last(),
            seen.last(),
        )
    }
}

/// The result that hands a message back that waited for a link.
pub open spec fn given_back_waiting(
    link_id: [u8; 16],
    dest_hash: [u8; 16],
    waiting: QueuedView,
    reason: Seq<char>,
) -> ResultView {
    ResultView::Failed {
        link_id,
        msg_hash: waiting.msg_hash,
        dest_hash,
        message: waiting.message,
        reason,
    }
}

/// What one link hands out in a round: the delivery that is complete, or the one that
/// failed and each message behind it.
pub open spec fn handed_by(
    entry: ([u8; 16], SessionView),
    seen: SessionObservation,
) -> Seq<ResultView> {
    let (link_id, session) = entry;
    let msg_hash = session.at_the_front().msg_hash;
    match why_it_fails(session, seen) {
        Some(reason) => seq![
            ResultView::Failed {
                link_id,
                msg_hash,
                dest_hash: session.dest_hash,
                message: session.front_message(),
                reason,
            },
        ] + session.behind_the_front().map_values(
            |waiting: QueuedView| given_back_waiting(link_id, session.dest_hash, waiting, reason),
        ),
        None => if seen.found matches Poll::Ready(Ok(_)) {
            seq![ResultView::Complete { link_id, msg_hash }]
        } else {
            Seq::empty()
        },
    }
}

/// What one link tells in a round: of each result that it hands out.
pub open spec fn told_by(
    entry: ([u8; 16], SessionView),
    seen: SessionObservation,
) -> Seq<EventView> {
    let (link_id, session) = entry;
    match why_it_fails(session, seen) {
        Some(reason) => seq![told_failed(entry, seen, reason)]
            + session.behind_the_front().map_values(
            |waiting: QueuedView| told_waiting(link_id, session.dest_hash, waiting, reason),
        ),
        None => match seen.found {
            Poll::Ready(Ok(receipt)) => seq![told_delivered(entry, receipt)],
            _ => Seq::empty(),
        },
    }
}

/// What some links hand out in a round, one after the other.
pub open spec fn handed_by_links(
    sessions: Seq<([u8; 16], SessionView)>,
    seen: Seq<SessionObservation>,
) -> Seq<ResultView>
    decreases sessions.len(),
{
    if sessions.len() == 0 {
        Seq::empty()
    } else {
        handed_by_links(sessions.drop_last(), seen.drop_last()) + handed_by(
            sessions.last(),
            seen.last(),
        )
    }
}

/// What some links tell in a round, one after the other.
pub open spec fn told_by_links(
    sessions: Seq<([u8; 16], SessionView)>,
    seen: Seq<SessionObservation>,
) -> Seq<EventView>
    decreases sessions.len(),
{
    if sessions.len() == 0 {
        Seq::empty()
    } else {
        told_by_links(sessions.drop_last(), seen.drop_last()) + told_by(
            sessions.last(),
            seen.last(),
        )
    }
}

/// What some send commands hand out in a round: each that ends, its message.
pub open spec fn handed_by_commands(
    starts: Seq<StartView>,
    seen: Seq<StartObservation>,
) -> Seq<ResultView>
    decreases starts.len(),
{
    if starts.len() == 0 {
        Seq::empty()
    } else {
        let before = handed_by_commands(starts.drop_last(), seen.drop_last());
        let start = starts.last();
        match why_it_ends(seen.last()) {
            Some(reason) => before.push(
                given_back(start.link_id, start.dest_hash, start.message, reason),
            ),
            None => before,
        }
    }
}

/// What some send commands tell in a round: each that ends, that it failed, and each that
/// was sent, its receipt.
pub open spec fn told_by_commands(
    starts: Seq<StartView>,
    seen: Seq<StartObservation>,
) -> Seq<EventView>
    decreases starts.len(),
{
    if starts.len() == 0 {
        Seq::empty()
    } else {
        let before = told_by_commands(starts.drop_last(), seen.drop_last());
        let start = starts.last();
        match (why_it_ends(seen.last()), seen.last().reply) {
            (Some(reason), _) => before.push(
                told_back(
                    start.link_id,
                    start.dest_hash,
                    start.message,
                    DeliveryRepresentation::Unknown,
                    reason,
                ),
            ),
            (None, Poll::Ready(Ok(receipt))) => before.push(told_receipt(start, receipt)),
            _ => before,
        }
    }
}

/// Which of some send commands go on waiting for their answers, in their order.
pub open spec fn left_unanswered(
    starts: Seq<StartView>,
    seen: Seq<StartObservation>,
) -> Seq<StartView>
    decreases starts.len(),
{
    if starts.len() == 0 {
        Seq::empty()
    } else {
        let before = left_unanswered(starts.drop_last(), seen.drop_last());
        if still_unanswered(seen.last()) {
            before.push(starts.last())
        } else {
            before
        }
    }
}

/// What some sends hand out in a round that wait for their proofs: each that is overdue,
/// its message.
pub open spec fn handed_by_waits(
    waits: Seq<(BackchannelProofKey, ProofWaitView)>,
    ages: Seq<u128>,
) -> Seq<ResultView>
    decreases waits.len(),
{
    if waits.len() == 0 {
        Seq::empty()
    } else {
        let before = handed_by_waits(waits.drop_last(), ages.drop_last());
        let wait = waits.last().1;
        if ages.last() > 360_000_000_000 {
            before.push(
                given_back(
                    wait.link_id,
                    wait.dest_hash,
                    wait.message,
                    "backchannel delivery timeout"@,
                ),
            )
        } else {
            before
        }
    }
}

/// What some sends tell in a round that wait for their proofs: each that is overdue, that
/// it failed.
pub open spec fn told_by_waits(
    waits: Seq<(BackchannelProofKey, ProofWaitView)>,
    ages: Seq<u128>,
) -> Seq<EventView>
    decreases waits.len(),
{
    if waits.len() == 0 {
        Seq::empty()
    } else {
        let before = told_by_waits(waits.drop_last(), ages.drop_last());
        let wait = waits.last().1;
        if ages.last() > 360_000_000_000 {
            before.push(
                told_back(
                    wait.link_id,
                    wait.dest_hash,
                    wait.message,
                    wait.representation,
                    "backchannel delivery timeout"@,
                ),
            )
        } else {
            before
        }
    }
}

/// Which of some sends go on waiting for their proofs, in their order.
pub open spec fn left_waiting(
    waits: Seq<(BackchannelProofKey, ProofWaitView)>,
    ages: Seq<u128>,
) -> Seq<(BackchannelProofKey, ProofWaitView)>
    decreases waits.len(),
{
    if waits.len() == 0 {
        Seq::empty()
    } else {
        let before = left_waiting(waits.drop_last(), ages.drop_last());
        if ages.last() <= 360_000_000_000 {
            before.push(waits.last())
        } else {
            before
        }
    }
}

proof fn lemma_starts_tell(
    state: ManagerState,
    starts: Seq<StartView>,
    seen: Seq<StartObservation>,
)
    requires
        seen.len() == starts.len(),
    ensures
        ({
            let round = state.settle_starts(starts, seen);
            &&& round.results == handed_by_commands(starts, seen)
            &&& round.state.events == state.events + told_by_commands(starts, seen)
            &&& round.state.starts == state.starts + left_unanswered(starts, seen)
        }),
    decreases starts.len(),
{
    let round = state.settle_starts(starts, seen);
    if starts.len() > 0 {
        lemma_starts_tell(state, starts.drop_last(), seen.drop_last());
    }
    assert(round.results =~= handed_by_commands(starts, seen));
    assert(round.state.events =~= state.events + told_by_commands(starts, seen));
    assert(round.state.starts =~= state.starts + left_unanswered(starts, seen));
}

proof fn lemma_waits_tell(
    state: ManagerState,
    waits: Seq<(BackchannelProofKey, ProofWaitView)>,
    ages: Seq<u128>,
)
    requires
        ages.len() == waits.len(),
    ensures
        ({
            let round = state.age_waits(waits, ages);
            &&& round.results == handed_by_waits(waits, ages)
            &&& round.state.events == state.events + told_by_waits(waits, ages)
            &&& round.state.waits == state.waits + left_waiting(waits, ages)
            &&& round.state.starts == state.starts
        }),
    decreases waits.len(),
{
    let round = state.age_waits(waits, ages);
    if waits.len() > 0 {
        lemma_waits_tell(state, waits.drop_last(), ages.drop_last());
    }
    assert(round.results =~= handed_by_waits(waits, ages));
    assert(round.state.events =~= state.events + told_by_waits(waits, ages));
    assert(round.state.waits =~= state.waits + left_waiting(waits, ages));
}

proof fn lemma_session_asks(
    state: ManagerState,
    direct_links: Map<[u8; 16], [u8; 16]>,
    entry: ([u8; 16], SessionView),
    seen: SessionObservation,
)
    requires
        session_coherent(direct_links, entry),
        entry.1.saw(seen),
    ensures
        ({
            let round = state.settle_session(entry, seen);
            &&& round.state.commands == state.commands + asked_by(entry, seen)
            &&& round.state.events == state.events + told_by(entry, seen)
            &&& round.results == handed_by(entry, seen)
        }),
{
    let round = state.settle_session(entry, seen);
    let current = entry.1.launch_waiting(seen).session;
    assert(current.queue =~= entry.1.behind_the_front());
    assert(round.state.commands =~= state.commands + asked_by(entry, seen));
    if let Some(reason) = why_it_fails(entry.1, seen) {
        assert(round.results =~= current.failed_results(entry.0, reason));
        assert(round.results =~= handed_by(entry, seen));
        assert(round.state.events =~= state.events + told_by(entry, seen));
    } else {
        assert(round.results =~= handed_by(entry, seen));
        assert(round.state.events =~= state.events + told_by(entry, seen));
    }
}

proof fn lemma_sessions_ask(
    state: ManagerState,
    direct_links: Map<[u8; 16], [u8; 16]>,
    all: Seq<([u8; 16], SessionView)>,
    seen: Seq<SessionObservation>,
    k: int,
)
    requires
        links_coherent(direct_links, all),
        seen.len() == all.len(),
        forall|i: int| 0 <= i < seen.len() ==> all[i].1.saw(#[trigger] seen[i]),
        0 <= k <= all.len(),
    ensures
        ({
            let round = state.settle_sessions(all.take(k), seen.take(k));
            &&& round.state.commands == state.commands + asked_by_all(all.take(k), seen.take(k))
            &&& round.state.events == state.events + told_by_links(all.take(k), seen.take(k))
            &&& round.results == handed_by_links(all.take(k), seen.take(k))
        }),
    decreases k,
{
    let round = state.settle_sessions(all.take(k), seen.take(k));
    if k > 0 {
        let i = k - 1;
        lemma_sessions_ask(state, direct_links, all, seen, i);
        let before = state.settle_sessions(all.take(i), seen.take(i)).state;
        assert(seen.take(k) =~= seen.take(i).push(seen[i]));
        lemma_settle_sessions_step(state, all, i, seen.take(i), seen[i]);
        assert(session_coherent(direct_links, all[i]));
        assert(all[i].1.saw(seen[i]));
        lemma_session_asks(before, direct_links, all[i], seen[i]);
        assert(all.take(k).drop_last() =~= all.take(i));
        assert(seen.take(k).drop_last() =~= seen.take(i));
    }
    assert(round.state.commands =~= state.commands + asked_by_all(all.take(k), seen.take(k)));
    assert(round.state.events =~= state.events + told_by_links(all.take(k), seen.take(k)));
    assert(round.results =~= handed_by_links(all.take(k), seen.take(k)));
}

/// A round hands out, tells and asks for what its parts do, and nothing else: first what
/// the answers to send commands come to, then the sends whose proofs are overdue, then
/// the links, each in its order. What goes on waiting does so in its order.
pub proof fn round_does_what_its_parts_do(
    state: ManagerState,
    starts_seen: Seq<StartObservation>,
    ages: Seq<u128>,
    sessions_seen: Seq<SessionObservation>,
)
    requires
        state.coherent(),
        state.saw(starts_seen, ages, sessions_seen),
    ensures
        ({
            let round = state.tick(starts_seen, ages, sessions_seen);
            let waits = state.answered(starts_seen).state.waits;
            &&& round.results == handed_by_commands(state.starts, starts_seen) + handed_by_waits(
                waits,
                ages,
            ) + handed_by_links(state.sessions, sessions_seen)
            &&& round.state.events == state.events + told_by_commands(state.starts, starts_seen)
                + told_by_waits(waits, ages) + told_by_links(state.sessions, sessions_seen)
            &&& round.state.commands == state.commands + asked_by_all(
                state.sessions,
                sessions_seen,
            )
            &&& round.state.starts == left_unanswered(state.starts, starts_seen)
            &&& round.state.waits == left_waiting(waits, ages)
        }),
{
    let round = state.tick(starts_seen, ages, sessions_seen);
    let answered = state.answered(starts_seen).state;
    lemma_starts_tell(ManagerState { starts: Seq::empty(), ..state }, state.starts, starts_seen);
    lemma_waits_tell(ManagerState { waits: Seq::empty(), ..answered }, answered.waits, ages);
    backchannel_round_leaves_sessions(state, starts_seen, ages);
    let middle = state.tick_backchannels(starts_seen, ages).state;
    session_round_leaves_backchannels(middle, sessions_seen);
    let n = state.sessions.len() as int;
    lemma_sessions_ask(
        ManagerState { sessions: Seq::empty(), ..middle },
        state.direct_links,
        state.sessions,
        sessions_seen,
        n,
    );
    assert(state.sessions.take(n) =~= state.sessions);
    assert(sessions_seen.take(n) =~= sessions_seen);
    assert(round.state.starts =~= left_unanswered(state.starts, starts_seen));
    assert(round.state.waits =~= left_waiting(answered.waits, ages));
}

} // verus!
