//! What failing and cancelling by hash and the loss of an inbound link come to, message by
//! message.

use vstd::prelude::*;

use super::following::{given_back, told_back};
use super::link_rounds::told_waiting;
use super::snapshots::{waits_first_at, waits_in};
use crate::backchannel::{BackchannelProofKey, ProofWaitView, StartView};
use crate::commands::CommandView;
use crate::events::{EventView, LxmfDeliveryEventKind, LxmfDeliveryEventMethod, ResultView};
use crate::model::{holding, start_of, wait_of, ManagerState};
use crate::queue::{queued_as, queued_index};
use crate::seqs::{lemma_first_where, lemma_first_where_is};
use crate::session::SessionView;
use crate::types::DeliveryRepresentation;

verus! {

/// Whether a link knows a message: as its current one, be it delivered or not, or as one
/// that waits.
pub open spec fn knows(session: SessionView, msg_hash: [u8; 32]) -> bool {
    session.msg_hash == Some(msg_hash) || waits_in(session.queue, msg_hash)
}

/// Whether a place among the links is the first that knows a message.
pub open spec fn knows_first(state: ManagerState, msg_hash: [u8; 32], i: int) -> bool {
    &&& 0 <= i < state.sessions.len()
    &&& knows(state.sessions[i].1, msg_hash)
    &&& forall|j: int| 0 <= j < i ==> !knows((#[trigger] state.sessions[j]).1, msg_hash)
}

/// Whether no link knows a message.
pub open spec fn no_link_knows(state: ManagerState, msg_hash: [u8; 32]) -> bool {
    forall|j: int|
        0 <= j < state.sessions.len() ==> !knows((#[trigger] state.sessions[j]).1, msg_hash)
}

/// Whether a place among the send commands without an answer is the first of a message.
pub open spec fn commanded_first(state: ManagerState, msg_hash: [u8; 32], i: int) -> bool {
    &&& 0 <= i < state.starts.len()
    &&& state.starts[i].message.hash == Some(msg_hash)
    &&& forall|j: int| 0 <= j < i ==> (#[trigger] state.starts[j]).message.hash != Some(msg_hash)
}

/// Whether no send command without an answer is about a message.
pub open spec fn not_commanded(state: ManagerState, msg_hash: [u8; 32]) -> bool {
    forall|j: int|
        0 <= j < state.starts.len() ==> (#[trigger] state.starts[j]).message.hash != Some(msg_hash)
}

/// Whether a place among the sends that wait for their proofs is the first of a message.
pub open spec fn awaited_first(state: ManagerState, msg_hash: [u8; 32], i: int) -> bool {
    &&& 0 <= i < state.waits.len()
    &&& state.waits[i].1.message.hash == Some(msg_hash)
    &&& forall|j: int| 0 <= j < i ==> (#[trigger] state.waits[j]).1.message.hash != Some(msg_hash)
}

/// Whether no send that waits for its proof is about a message.
pub open spec fn not_awaited(state: ManagerState, msg_hash: [u8; 32]) -> bool {
    forall|j: int|
        0 <= j < state.waits.len() ==> (#[trigger] state.waits[j]).1.message.hash != Some(msg_hash)
}

proof fn lemma_holds_is_knows(session: SessionView, msg_hash: [u8; 32])
    ensures
        session.holds(msg_hash) == knows(session, msg_hash),
{
    lemma_first_where(session.queue, queued_as(msg_hash));
    if let Some(at) = queued_index(session.queue, msg_hash) {
        assert(waits_first_at(session.queue, msg_hash, at));
    }
    if waits_in(session.queue, msg_hash) {
        let k = choose|k: int| #[trigger] waits_first_at(session.queue, msg_hash, k);
        lemma_first_where_is(session.queue, queued_as(msg_hash), k);
    }
}

proof fn lemma_found(state: ManagerState, msg_hash: [u8; 32], i: int)
    ensures
        knows_first(state, msg_hash, i) ==> state.session_holding(msg_hash) == Some(i),
        no_link_knows(state, msg_hash) ==> state.session_holding(msg_hash) is None,
        commanded_first(state, msg_hash, i) ==> state.start_holding(msg_hash) == Some(i),
        not_commanded(state, msg_hash) ==> state.start_holding(msg_hash) is None,
        awaited_first(state, msg_hash, i) ==> state.wait_holding(msg_hash) == Some(i),
        not_awaited(state, msg_hash) ==> state.wait_holding(msg_hash) is None,
{
    assert forall|j: int| 0 <= j < state.sessions.len() implies (
    #[trigger] state.sessions[j]).1.holds(msg_hash) == knows(state.sessions[j].1, msg_hash) by {
        lemma_holds_is_knows(state.sessions[j].1, msg_hash);
    }
    lemma_first_where(state.sessions, holding(msg_hash));
    lemma_first_where(state.starts, start_of(msg_hash));
    lemma_first_where(state.waits, wait_of(msg_hash));
    if knows_first(state, msg_hash, i) {
        lemma_first_where_is(state.sessions, holding(msg_hash), i);
    }
    if commanded_first(state, msg_hash, i) {
        lemma_first_where_is(state.starts, start_of(msg_hash), i);
    }
    if awaited_first(state, msg_hash, i) {
        lemma_first_where_is(state.waits, wait_of(msg_hash), i);
    }
}

/// The cache without the link of a session.
pub open spec fn cache_without(state: ManagerState, i: int) -> Map<[u8; 16], [u8; 16]> {
    let (link_id, session) = state.sessions[i];
    if state.direct_links.contains_key(session.dest_hash)
        && state.direct_links[session.dest_hash] == link_id {
        state.direct_links.remove(session.dest_hash)
    } else {
        state.direct_links
    }
}

/// The event that tells that the current message of a link failed.
pub open spec fn told_current(
    link_id: [u8; 16],
    session: SessionView,
    reason: Seq<char>,
) -> EventView {
    EventView {
        kind: LxmfDeliveryEventKind::Failed,
        method: if session.reusable {
            LxmfDeliveryEventMethod::Direct
        } else {
            LxmfDeliveryEventMethod::PropagationDeposit
        },
        link_id,
        dest_hash: session.dest_hash,
        msg_hash: session.msg_hash,
        attempts: session.message.delivery_attempts,
        progress: Some(session.message.progress),
        representation: session.message.representation,
        link_state: session.link_state,
        delivery_state: session.state,
        queued_deliveries: session.queue.len(),
        in_flight_deliveries: if session.state is Idle {
            0
        } else {
            1
        },
        reason: Some(reason),
    }
}

/// Failing the current message of a link hands that message back as itself, and behind it
/// every message that waits, each as itself, with the reason; each is told of; the link is
/// forgotten, and nothing else changes.
pub proof fn failing_the_current_message_hands_all_back(
    state: ManagerState,
    msg_hash: [u8; 32],
    reason: Seq<char>,
    i: int,
    k: int,
)
    requires
        knows_first(state, msg_hash, i),
        state.sessions[i].1.msg_hash == Some(msg_hash),
    ensures
        ({
            let (link_id, session) = state.sessions[i];
            let failed = state.fail_by_hash(msg_hash, reason);
            let told = state.events.len() as int;
            &&& failed.results.len() == 1 + session.queue.len()
            &&& failed.results[0] == (ResultView::Failed {
                link_id,
                msg_hash: Some(msg_hash),
                dest_hash: session.dest_hash,
                message: session.message,
                reason,
            })
            &&& failed.state.events.len() == told + 1 + session.queue.len()
            &&& failed.state.events.take(told) == state.events
            &&& failed.state.events[told] == told_current(link_id, session, reason)
            &&& 0 <= k < session.queue.len() ==> {
                &&& failed.results[k + 1] == (ResultView::Failed {
                    link_id,
                    msg_hash: session.queue[k].msg_hash,
                    dest_hash: session.dest_hash,
                    message: session.queue[k].message,
                    reason,
                })
                &&& failed.state.events[told + 1 + k] == told_waiting(
                    link_id,
                    session.dest_hash,
                    session.queue[k],
                    reason,
                )
            }
            &&& failed.state == (ManagerState {
                sessions: state.sessions.remove(i),
                direct_links: cache_without(state, i),
                events: failed.state.events,
                ..state
            })
        }),
{
    lemma_found(state, msg_hash, i);
    let failed = state.fail_by_hash(msg_hash, reason).state;
    assert(failed.events.take(state.events.len() as int) =~= state.events);
}

/// Failing a message that waits for a link hands that message back as itself, with the
/// reason, and tells so; those before and behind it stay in their order, and nothing else
/// changes.
pub proof fn failing_a_waiting_message_hands_it_back(
    state: ManagerState,
    msg_hash: [u8; 32],
    reason: Seq<char>,
    i: int,
    k: int,
)
    requires
        knows_first(state, msg_hash, i),
        state.sessions[i].1.msg_hash != Some(msg_hash),
        waits_first_at(state.sessions[i].1.queue, msg_hash, k),
    ensures
        ({
            let (link_id, session) = state.sessions[i];
            let failed = state.fail_by_hash(msg_hash, reason);
            &&& failed.results == seq![
                ResultView::Failed {
                    link_id,
                    msg_hash: Some(msg_hash),
                    dest_hash: session.dest_hash,
                    message: session.queue[k].message,
                    reason,
                },
            ]
            &&& failed.state == (ManagerState {
                sessions: state.sessions.update(
                    i,
                    (link_id, SessionView { queue: session.queue.remove(k), ..session }),
                ),
                events: state.events.push(
                    told_waiting(link_id, session.dest_hash, session.queue[k], reason),
                ),
                ..state
            })
        }),
{
    lemma_found(state, msg_hash, i);
    lemma_first_where_is(state.sessions[i].1.queue, queued_as(msg_hash), k);
}

/// Failing a message that goes over a backchannel and that no link knows hands it back as
/// itself, with the reason, and tells so; the backchannel to its destination is given up,
/// and nothing else changes. A command without an answer comes before a send that waits
/// for its proof. A message that is nowhere is not failed.
pub proof fn failing_a_backchannel_message_hands_it_back(
    state: ManagerState,
    msg_hash: [u8; 32],
    reason: Seq<char>,
    i: int,
)
    requires
        no_link_knows(state, msg_hash),
    ensures
        commanded_first(state, msg_hash, i) ==> {
            let start = state.starts[i];
            let failed = state.fail_by_hash(msg_hash, reason);
            &&& failed.results == seq![
                given_back(start.link_id, start.dest_hash, start.message, reason),
            ]
            &&& failed.state == (ManagerState {
                starts: state.starts.remove(i),
                backchannel_links: state.backchannel_links.remove(start.dest_hash),
                events: state.events.push(
                    told_back(
                        start.link_id,
                        start.dest_hash,
                        start.message,
                        DeliveryRepresentation::Unknown,
                        reason,
                    ),
                ),
                ..state
            })
        },
        not_commanded(state, msg_hash) && awaited_first(state, msg_hash, i) ==> {
            let wait = state.waits[i].1;
            let failed = state.fail_by_hash(msg_hash, reason);
            &&& failed.results == seq![
                given_back(wait.link_id, wait.dest_hash, wait.message, reason),
            ]
            &&& failed.state == (ManagerState {
                waits: state.waits.remove(i),
                backchannel_links: state.backchannel_links.remove(wait.dest_hash),
                events: state.events.push(
                    told_back(
                        wait.link_id,
                        wait.dest_hash,
                        wait.message,
                        wait.representation,
                        reason,
                    ),
                ),
                ..state
            })
        },
        not_commanded(state, msg_hash) && not_awaited(state, msg_hash) ==> {
            &&& state.fail_by_hash(msg_hash, reason).state == state
            &&& state.fail_by_hash(msg_hash, reason).results.len() == 0
        },
{
    lemma_found(state, msg_hash, i);
}

/// Cancelling finds what failing finds: the current message of a link, whose link is
/// closed and forgotten with all that waits, a message that waits, or a send over a
/// backchannel, which keeps the backchannel. Nothing is told, and nothing else changes.
pub proof fn cancelling_ends_the_message(state: ManagerState, msg_hash: [u8; 32], i: int, k: int)
    ensures
        state.holds(msg_hash) <==> !(no_link_knows(state, msg_hash) && not_commanded(
            state,
            msg_hash,
        ) && not_awaited(state, msg_hash)),
        knows_first(state, msg_hash, i) && state.sessions[i].1.msg_hash == Some(msg_hash) ==> {
            let link_id = state.sessions[i].0;
            state.cancel_by_hash(msg_hash) == (ManagerState {
                sessions: state.sessions.remove(i),
                direct_links: cache_without(state, i),
                commands: state.commands + seq![
                    CommandView::Close { link_id },
                    CommandView::Close { link_id },
                ],
                ..state
            })
        },
        knows_first(state, msg_hash, i) && state.sessions[i].1.msg_hash != Some(msg_hash)
            && waits_first_at(state.sessions[i].1.queue, msg_hash, k) ==> {
            let (link_id, session) = state.sessions[i];
            state.cancel_by_hash(msg_hash) == (ManagerState {
                sessions: state.sessions.update(
                    i,
                    (link_id, SessionView { queue: session.queue.remove(k), ..session }),
                ),
                ..state
            })
        },
        no_link_knows(state, msg_hash) && commanded_first(state, msg_hash, i)
            ==> state.cancel_by_hash(msg_hash) == (ManagerState {
            starts: state.starts.remove(i),
            ..state
        }),
        no_link_knows(state, msg_hash) && not_commanded(state, msg_hash) && awaited_first(
            state,
            msg_hash,
            i,
        ) ==> state.cancel_by_hash(msg_hash) == (ManagerState {
            waits: state.waits.remove(i),
            ..state
        }),
        !state.holds(msg_hash) ==> state.cancel_by_hash(msg_hash) == state,
{
    lemma_found(state, msg_hash, i);
    lemma_first_where(state.sessions, holding(msg_hash));
    lemma_first_where(state.starts, start_of(msg_hash));
    lemma_first_where(state.waits, wait_of(msg_hash));
    assert forall|j: int| 0 <= j < state.sessions.len() implies (
    #[trigger] state.sessions[j]).1.holds(msg_hash) == knows(state.sessions[j].1, msg_hash) by {
        lemma_holds_is_knows(state.sessions[j].1, msg_hash);
    }
    if knows_first(state, msg_hash, i) {
        if state.sessions[i].1.msg_hash == Some(msg_hash) {
            let link_id = state.sessions[i].0;
            assert(state.cancel_by_hash(msg_hash).commands =~= state.commands + seq![
                CommandView::Close { link_id },
                CommandView::Close { link_id },
            ]);
        } else if waits_first_at(state.sessions[i].1.queue, msg_hash, k) {
            lemma_first_where_is(state.sessions[i].1.queue, queued_as(msg_hash), k);
        }
    }
}

proof fn lemma_filter_has<A>(s: Seq<A>, p: spec_fn(A) -> bool, i: int)
    requires
        0 <= i < s.len(),
        p(s[i]),
    ensures
        exists|n: int| 0 <= n < s.filter(p).len() && #[trigger] s.filter(p)[n] == s[i],
{
    s.filter_lemma(p);
    assert(s.contains(s[i]));
    assert(s.filter(p).contains(s[i]));
}

/// A closed inbound link hands every message back that went over it, each as itself and
/// with the reason, and tells so; those that go over other links stay, in their order; the
/// backchannels over the link are gone, and all others stay.
pub proof fn lost_link_hands_its_messages_back(
    state: ManagerState,
    link_id: [u8; 16],
    reason: Seq<char>,
    i: int,
    dest_hash: [u8; 16],
)
    ensures
        ({
            let lost = state.fail_backchannel_link(link_id, reason);
            &&& 0 <= i < state.starts.len() && state.starts[i].link_id == link_id ==> {
                let start = state.starts[i];
                &&& lost.results.contains(
                    given_back(link_id, start.dest_hash, start.message, reason),
                )
                &&& lost.state.events.contains(
                    told_back(
                        link_id,
                        start.dest_hash,
                        start.message,
                        DeliveryRepresentation::Unknown,
                        reason,
                    ),
                )
            }
            &&& 0 <= i < state.waits.len() && state.waits[i].1.link_id == link_id ==> {
                let wait = state.waits[i].1;
                &&& lost.results.contains(
                    given_back(link_id, wait.dest_hash, wait.message, reason),
                )
                &&& lost.state.events.contains(
                    told_back(
                        link_id,
                        wait.dest_hash,
                        wait.message,
                        wait.representation,
                        reason,
                    ),
                )
            }
            &&& lost.state.events.len() == state.events.len() + lost.results.len()
            &&& lost.state.events.take(state.events.len() as int) == state.events
            &&& ({
                let commanded = state.starts.filter(|start: StartView| start.link_id == link_id);
                let awaited = state.waits.filter(
                    |entry: (BackchannelProofKey, ProofWaitView)| entry.1.link_id == link_id,
                );
                &&& lost.results.len() == commanded.len() + awaited.len()
                &&& 0 <= i < commanded.len() ==> lost.results[i] == given_back(
                    link_id,
                    commanded[i].dest_hash,
                    commanded[i].message,
                    reason,
                )
                &&& 0 <= i < awaited.len() ==> lost.results[commanded.len() + i] == given_back(
                    link_id,
                    awaited[i].1.dest_hash,
                    awaited[i].1.message,
                    reason,
                )
            })
            &&& lost.state.starts == state.starts.filter(
                |start: StartView| start.link_id != link_id,
            )
            &&& lost.state.waits == state.waits.filter(
                |entry: (BackchannelProofKey, ProofWaitView)| entry.1.link_id != link_id,
            )
            &&& lost.state.backchannel_links.contains_key(dest_hash) <==> {
                &&& state.backchannel_links.contains_key(dest_hash)
                &&& state.backchannel_links[dest_hash] != link_id
            }
            &&& lost.state.backchannel_links.contains_key(dest_hash)
                ==> lost.state.backchannel_links[dest_hash] == state.backchannel_links[dest_hash]
            &&& lost.state == (ManagerState {
                starts: lost.state.starts,
                waits: lost.state.waits,
                backchannel_links: lost.state.backchannel_links,
                events: lost.state.events,
                ..state
            })
        }),
{
    let lost = state.fail_backchannel_link(link_id, reason);
    let over = |start: StartView| start.link_id == link_id;
    let waiting_over = |entry: (BackchannelProofKey, ProofWaitView)| entry.1.link_id == link_id;
    let starts = state.starts.filter(over);
    let waits = state.waits.filter(waiting_over);
    let told = state.events.len() as int;
    state.starts.filter_lemma(over);
    state.waits.filter_lemma(waiting_over);
    if 0 <= i < starts.len() {
        assert(over(starts[i]));
    }
    if 0 <= i < waits.len() {
        assert(waiting_over(waits[i]));
        assert(lost.results[starts.len() + i] == waits[i].1.failed_result(reason));
    }
    assert(lost.state.events.take(told) =~= state.events);
    if 0 <= i < state.starts.len() && state.starts[i].link_id == link_id {
        lemma_filter_has(state.starts, over, i);
        let n = choose|n: int| 0 <= n < starts.len() && #[trigger] starts[n] == state.starts[i];
        assert(lost.results[n] == starts[n].failed_result(reason));
        assert(lost.state.events[told + n] == starts[n].failed_event(reason));
    }
    if 0 <= i < state.waits.len() && state.waits[i].1.link_id == link_id {
        lemma_filter_has(state.waits, waiting_over, i);
        let n = choose|n: int| 0 <= n < waits.len() && #[trigger] waits[n] == state.waits[i];
        let at = starts.len() + n;
        assert(lost.results[at] == waits[n].1.failed_result(reason));
        assert(lost.state.events[told + at] == waits[n].1.failed_event(reason));
    }
}

} // verus!
