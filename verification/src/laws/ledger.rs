//! No message is lost, duplicated or invented: every operation accounts for the messages
//! that it takes, keeps and hands out, one by one.

use std::time::Instant;
use tokio::sync::oneshot;
use vstd::multiset::Multiset;
use vstd::prelude::*;
use vstd::seq_lib::lemma_multiset_commutative;

use super::queueing::{
    handed, hashes, line_is_served_from_the_front, message_joins_the_end_of_the_line,
};
use super::rounds::{
    backchannel_round_leaves_sessions, left_of, lemma_settle_sessions_step, settled_in,
};
use crate::backchannel::{
    BackchannelProofKey, BackchannelReply, BackchannelSendReceipt, ProofWaitView, StartView,
};
use crate::channel::Poll;
use crate::commands::LinkReply;
use crate::counts::lemma_owned_push;
use crate::events::ResultView;
use crate::keyed::{has_key, key_index, lemma_key_index};
use crate::message::LxMessageView;
use crate::model::{
    holding, links_coherent, owned_by, session_coherent, start_of, wait_of, ManagerState, OpenRequestView,
    SessionObservation, StartObservation,
};
use crate::queue::{queued_as, queued_index};
use crate::seqs::lemma_first_where;
use crate::session::SessionView;

verus! {

/// One delivery: the link that it goes over, and the hash of its message.
pub type Delivery = ([u8; 16], Option<[u8; 32]>);

/// The deliveries over one link, given the hashes of their messages.
pub open spec fn over(link_id: [u8; 16], hashes: Seq<Option<[u8; 32]>>) -> Seq<Delivery> {
    hashes.map_values(|hash: Option<[u8; 32]>| (link_id, hash))
}

/// The deliveries of a session.
pub open spec fn of_session(entry: ([u8; 16], SessionView)) -> Multiset<Delivery> {
    over(entry.0, hashes(entry.1.line())).to_multiset()
}

/// The deliveries of some sessions.
pub open spec fn of_sessions(sessions: Seq<([u8; 16], SessionView)>) -> Multiset<Delivery>
    decreases sessions.len(),
{
    if sessions.len() == 0 {
        Multiset::empty()
    } else {
        of_sessions(sessions.drop_last()).add(of_session(sessions.last()))
    }
}

/// The deliveries of unanswered sends.
pub open spec fn of_starts(starts: Seq<StartView>) -> Seq<Delivery> {
    starts.map_values(|start: StartView| (start.link_id, start.message.hash))
}

/// The deliveries of sends that wait for their proofs.
pub open spec fn of_waits(waits: Seq<(BackchannelProofKey, ProofWaitView)>) -> Seq<Delivery> {
    waits.map_values(
        |entry: (BackchannelProofKey, ProofWaitView)| (entry.1.link_id, entry.1.message.hash),
    )
}

/// The deliveries that some results are about.
pub open spec fn of_results(results: Seq<ResultView>) -> Seq<Delivery> {
    results.map_values(|result: ResultView| (result.link(), result.hash()))
}

impl ManagerState {
    /// All deliveries that the manager owns.
    pub open spec fn deliveries(self) -> Multiset<Delivery> {
        of_sessions(self.sessions).add(of_starts(self.starts).to_multiset()).add(
            of_waits(self.waits).to_multiset(),
        )
    }
}

proof fn lemma_push<A>(s: Seq<A>, a: A)
    ensures
        s.push(a).to_multiset() == s.to_multiset().insert(a),
{
    s.to_multiset_ensures();
}

proof fn lemma_remove<A>(s: Seq<A>, i: int)
    requires
        0 <= i < s.len(),
    ensures
        s.remove(i).to_multiset().insert(s[i]) == s.to_multiset(),
{
    s.to_multiset_ensures();
    assert(s.contains(s[i]));
    assert(s.remove(i).to_multiset().insert(s[i]) =~= s.to_multiset());
}

proof fn lemma_sessions_push(
    sessions: Seq<([u8; 16], SessionView)>,
    entry: ([u8; 16], SessionView),
)
    ensures
        of_sessions(sessions.push(entry)) == of_sessions(sessions).add(of_session(entry)),
{
    assert(sessions.push(entry).drop_last() =~= sessions);
}

proof fn lemma_sessions_add(
    first: Seq<([u8; 16], SessionView)>,
    then: Seq<([u8; 16], SessionView)>,
)
    ensures
        of_sessions(first + then) == of_sessions(first).add(of_sessions(then)),
    decreases then.len(),
{
    if then.len() == 0 {
        assert(first + then =~= first);
        assert(of_sessions(first).add(Multiset::empty()) =~= of_sessions(first));
    } else {
        assert((first + then).drop_last() =~= first + then.drop_last());
        lemma_sessions_add(first, then.drop_last());
        assert(of_sessions(first).add(of_sessions(then.drop_last())).add(of_session(then.last()))
            =~= of_sessions(first).add(of_sessions(then)));
    }
}

proof fn lemma_sessions_remove(sessions: Seq<([u8; 16], SessionView)>, i: int)
    requires
        0 <= i < sessions.len(),
    ensures
        of_sessions(sessions.remove(i)).add(of_session(sessions[i])) == of_sessions(sessions),
{
    let (before, after) = (sessions.take(i), sessions.skip(i + 1));
    lemma_sessions_add(before, after);
    lemma_sessions_push(before, sessions[i]);
    lemma_sessions_add(before.push(sessions[i]), after);
    assert(before + after =~= sessions.remove(i));
    assert(before.push(sessions[i]) + after =~= sessions);
    assert(of_sessions(sessions.remove(i)).add(of_session(sessions[i])) =~= of_sessions(
        sessions,
    ));
}

proof fn lemma_sessions_update(
    sessions: Seq<([u8; 16], SessionView)>,
    i: int,
    entry: ([u8; 16], SessionView),
)
    requires
        0 <= i < sessions.len(),
    ensures
        of_sessions(sessions.update(i, entry)).add(of_session(sessions[i])) == of_sessions(
            sessions,
        ).add(of_session(entry)),
{
    lemma_sessions_remove(sessions, i);
    lemma_sessions_remove(sessions.update(i, entry), i);
    assert(sessions.update(i, entry).remove(i) =~= sessions.remove(i));
    assert(of_sessions(sessions.update(i, entry)).add(of_session(sessions[i])) =~= of_sessions(
        sessions,
    ).add(of_session(entry)));
}

proof fn lemma_starts_push(starts: Seq<StartView>, start: StartView)
    ensures
        of_starts(starts.push(start)).to_multiset() == of_starts(starts).to_multiset().insert(
            (start.link_id, start.message.hash),
        ),
{
    assert(of_starts(starts.push(start)) =~= of_starts(starts).push(
        (start.link_id, start.message.hash),
    ));
    lemma_push(of_starts(starts), (start.link_id, start.message.hash));
}

proof fn lemma_waits_push(
    waits: Seq<(BackchannelProofKey, ProofWaitView)>,
    entry: (BackchannelProofKey, ProofWaitView),
)
    ensures
        of_waits(waits.push(entry)).to_multiset() == of_waits(waits).to_multiset().insert(
            (entry.1.link_id, entry.1.message.hash),
        ),
{
    assert(of_waits(waits.push(entry)) =~= of_waits(waits).push(
        (entry.1.link_id, entry.1.message.hash),
    ));
    lemma_push(of_waits(waits), (entry.1.link_id, entry.1.message.hash));
}

proof fn lemma_results_add(first: Seq<ResultView>, then: Seq<ResultView>)
    ensures
        of_results(first + then).to_multiset() == of_results(first).to_multiset().add(
            of_results(then).to_multiset(),
        ),
{
    assert(of_results(first + then) =~= of_results(first) + of_results(then));
    lemma_multiset_commutative(of_results(first), of_results(then));
}

proof fn lemma_no_results(results: Seq<ResultView>)
    requires
        results.len() == 0,
    ensures
        of_results(results).to_multiset() == Multiset::<Delivery>::empty(),
{
    assert(of_results(results) =~= Seq::<Delivery>::empty());
    of_results(results).to_multiset_ensures();
    assert(of_results(results).to_multiset() =~= Multiset::<Delivery>::empty());
}

proof fn lemma_one_result(results: Seq<ResultView>)
    requires
        results.len() == 1,
    ensures
        of_results(results).to_multiset() == Multiset::<Delivery>::empty().insert(
            (results[0].link(), results[0].hash()),
        ),
{
    lemma_no_results(results.drop_last());
    assert(of_results(results) =~= of_results(results.drop_last()).push(
        (results[0].link(), results[0].hash()),
    ));
    lemma_push(of_results(results.drop_last()), (results[0].link(), results[0].hash()));
}

proof fn lemma_settle_start(state: ManagerState, start: StartView, seen: StartObservation)
    requires
        seen.reply matches Poll::Ready(Ok(receipt)) ==> !has_key(state.waits, receipt_key(receipt)),
    ensures
        ({
            let settled = state.settle_start(start, seen);
            settled.state.deliveries().add(of_results(settled.results).to_multiset())
                == state.deliveries().insert((start.link_id, start.message.hash))
        }),
{
    let settled = state.settle_start(start, seen);
    if settled.results.len() == 1 {
        lemma_one_result(settled.results);
    } else {
        lemma_no_results(settled.results);
        if settled.state.starts.len() > state.starts.len() {
            lemma_starts_push(state.starts, start);
        } else {
            lemma_waits_push(state.waits, settled.state.waits.last());
            assert(settled.state.waits == state.waits.push(settled.state.waits.last()));
        }
    }
    assert(settled.state.deliveries().add(of_results(settled.results).to_multiset())
        =~= state.deliveries().insert((start.link_id, start.message.hash)));
}

proof fn lemma_settle_starts(
    state: ManagerState,
    starts: Seq<StartView>,
    seen: Seq<StartObservation>,
)
    requires
        receipts_fresh(state, starts, seen),
    ensures
        ({
            let settled = state.settle_starts(starts, seen);
            settled.state.deliveries().add(of_results(settled.results).to_multiset())
                == state.deliveries().add(of_starts(starts).to_multiset())
        }),
    decreases starts.len(),
{
    let settled = state.settle_starts(starts, seen);
    if starts.len() == 0 {
        lemma_no_results(settled.results);
        assert(of_starts(starts) =~= Seq::<Delivery>::empty());
        of_starts(starts).to_multiset_ensures();
        assert(of_starts(starts).to_multiset() =~= Multiset::<Delivery>::empty());
    } else {
        let before = state.settle_starts(starts.drop_last(), seen.drop_last());
        let last = before.state.settle_start(starts.last(), seen.last());
        lemma_settle_starts(state, starts.drop_last(), seen.drop_last());
        lemma_settle_start(before.state, starts.last(), seen.last());
        lemma_results_add(before.results, last.results);
        lemma_starts_push(starts.drop_last(), starts.last());
        assert(starts.drop_last().push(starts.last()) =~= starts);
        assert(settled.state.deliveries().add(of_results(settled.results).to_multiset())
            =~= last.state.deliveries().add(of_results(last.results).to_multiset()).add(
            of_results(before.results).to_multiset(),
        ));
        assert(before.state.deliveries().insert(
            (starts.last().link_id, starts.last().message.hash),
        ).add(of_results(before.results).to_multiset()) =~= before.state.deliveries().add(
            of_results(before.results).to_multiset(),
        ).insert((starts.last().link_id, starts.last().message.hash)));
    }
    assert(settled.state.deliveries().add(of_results(settled.results).to_multiset())
        =~= state.deliveries().add(of_starts(starts).to_multiset()));
}

proof fn lemma_age_waits(
    state: ManagerState,
    waits: Seq<(BackchannelProofKey, ProofWaitView)>,
    ages: Seq<u128>,
)
    ensures
        ({
            let aged = state.age_waits(waits, ages);
            aged.state.deliveries().add(of_results(aged.results).to_multiset())
                == state.deliveries().add(of_waits(waits).to_multiset())
        }),
    decreases waits.len(),
{
    let aged = state.age_waits(waits, ages);
    if waits.len() == 0 {
        lemma_no_results(aged.results);
        assert(of_waits(waits) =~= Seq::<Delivery>::empty());
        of_waits(waits).to_multiset_ensures();
        assert(of_waits(waits).to_multiset() =~= Multiset::<Delivery>::empty());
    } else {
        let before = state.age_waits(waits.drop_last(), ages.drop_last());
        let last = before.state.age_wait(waits.last(), ages.last());
        lemma_age_waits(state, waits.drop_last(), ages.drop_last());
        lemma_results_add(before.results, last.results);
        lemma_waits_push(waits.drop_last(), waits.last());
        assert(waits.drop_last().push(waits.last()) =~= waits);
        if last.results.len() == 1 {
            lemma_one_result(last.results);
        } else {
            lemma_no_results(last.results);
            lemma_waits_push(before.state.waits, waits.last());
        }
        assert(last.state.deliveries().add(of_results(last.results).to_multiset())
            =~= before.state.deliveries().insert(
            (waits.last().1.link_id, waits.last().1.message.hash),
        ));
        assert(aged.state.deliveries().add(of_results(aged.results).to_multiset())
            =~= last.state.deliveries().add(of_results(last.results).to_multiset()).add(
            of_results(before.results).to_multiset(),
        ));
        assert(before.state.deliveries().insert(
            (waits.last().1.link_id, waits.last().1.message.hash),
        ).add(of_results(before.results).to_multiset()) =~= before.state.deliveries().add(
            of_results(before.results).to_multiset(),
        ).insert((waits.last().1.link_id, waits.last().1.message.hash)));
    }
    assert(aged.state.deliveries().add(of_results(aged.results).to_multiset())
        =~= state.deliveries().add(of_waits(waits).to_multiset()));
}

/// The results of a session are about its own link.
proof fn lemma_results_over(
    direct_links: Map<[u8; 16], [u8; 16]>,
    entry: ([u8; 16], SessionView),
    seen: SessionObservation,
)
    requires
        session_coherent(direct_links, entry),
        entry.1.saw(seen),
    ensures
        of_session(entry) == of_results(settled_in(entry, seen).results).to_multiset().add(
            match left_of(entry, seen) {
                Some(left) => of_session((entry.0, left)),
                None => Multiset::empty(),
            },
        ),
{
    let settled = settled_in(entry, seen);
    let told = handed(settled.results);
    line_is_served_from_the_front(direct_links, entry, seen);
    assert(of_results(settled.results) =~= over(entry.0, told)) by {
        assert forall|j: int| 0 <= j < settled.results.len() implies #[trigger] of_results(
            settled.results,
        )[j] == over(entry.0, told)[j] by {
            assert(settled.results[j].link() == entry.0);
        }
    }
    let rest = match left_of(entry, seen) {
        Some(left) => hashes(left.line()),
        None => Seq::empty(),
    };
    assert(over(entry.0, told + rest) =~= over(entry.0, told) + over(entry.0, rest));
    lemma_multiset_commutative(over(entry.0, told), over(entry.0, rest));
    if left_of(entry, seen) is None {
        assert(over(entry.0, rest) =~= Seq::<Delivery>::empty());
        over(entry.0, rest).to_multiset_ensures();
        assert(over(entry.0, rest).to_multiset() =~= Multiset::<Delivery>::empty());
    }
}

proof fn lemma_settle_session(
    state: ManagerState,
    direct_links: Map<[u8; 16], [u8; 16]>,
    entry: ([u8; 16], SessionView),
    seen: SessionObservation,
)
    requires
        session_coherent(direct_links, entry),
        entry.1.saw(seen),
    ensures
        ({
            let settled = state.settle_session(entry, seen);
            settled.state.deliveries().add(of_results(settled.results).to_multiset())
                == state.deliveries().add(of_session(entry))
        }),
{
    let settled = state.settle_session(entry, seen);
    lemma_results_over(direct_links, entry, seen);
    assert(settled.results == settled_in(entry, seen).results);
    if let Some(left) = left_of(entry, seen) {
        assert(settled.state.sessions == state.sessions.push((entry.0, left)));
        lemma_sessions_push(state.sessions, (entry.0, left));
    }
    assert(settled.state.deliveries().add(of_results(settled.results).to_multiset())
        =~= state.deliveries().add(of_session(entry)));
}

proof fn lemma_settle_sessions(
    state: ManagerState,
    direct_links: Map<[u8; 16], [u8; 16]>,
    all: Seq<([u8; 16], SessionView)>,
    seen: Seq<SessionObservation>,
    k: int,
)
    requires
        links_coherent(direct_links, all),
        seen.len() == all.len(),
        forall|i: int| 0 <= i < seen.len() ==> all[i].1.saw(#[trigger] seen[i]),
        0 <= k <= all.len(),
    ensures
        ({
            let settled = state.settle_sessions(all.take(k), seen.take(k));
            settled.state.deliveries().add(of_results(settled.results).to_multiset())
                == state.deliveries().add(of_sessions(all.take(k)))
        }),
    decreases k,
{
    let settled = state.settle_sessions(all.take(k), seen.take(k));
    if k == 0 {
        lemma_no_results(settled.results);
    } else {
        let i = k - 1;
        let before = state.settle_sessions(all.take(i), seen.take(i));
        let last = before.state.settle_session(all[i], seen[i]);
        lemma_settle_sessions(state, direct_links, all, seen, i);
        assert(seen.take(k) =~= seen.take(i).push(seen[i]));
        assert(all.take(k) =~= all.take(i).push(all[i]));
        lemma_settle_sessions_step(state, all, i, seen.take(i), seen[i]);
        assert(session_coherent(direct_links, all[i]));
        assert(all[i].1.saw(seen[i]));
        lemma_settle_session(before.state, direct_links, all[i], seen[i]);
        lemma_results_add(before.results, last.results);
        lemma_sessions_push(all.take(i), all[i]);
        assert(settled.state.deliveries().add(of_results(settled.results).to_multiset())
            =~= last.state.deliveries().add(of_results(last.results).to_multiset()).add(
            of_results(before.results).to_multiset(),
        ));
        assert(before.state.deliveries().add(of_session(all[i])).add(
            of_results(before.results).to_multiset(),
        ) =~= before.state.deliveries().add(of_results(before.results).to_multiset()).add(
            of_session(all[i]),
        ));
    }
    assert(settled.state.deliveries().add(of_results(settled.results).to_multiset())
        =~= state.deliveries().add(of_sessions(all.take(k))));
}

/// The proof that a receipt makes a send wait for.
pub open spec fn receipt_key(receipt: BackchannelSendReceipt) -> BackchannelProofKey {
    match receipt {
        BackchannelSendReceipt::Packet { link_id, packet_hash } => BackchannelProofKey::Packet(
            link_id,
            packet_hash,
        ),
        BackchannelSendReceipt::Resource {
            link_id,
            resource_hash,
        } => BackchannelProofKey::Resource(link_id, resource_hash),
    }
}

/// Whether no receipt names a proof that another send waits for already.
pub open spec fn receipts_fresh(
    state: ManagerState,
    starts: Seq<StartView>,
    seen: Seq<StartObservation>,
) -> bool
    decreases starts.len(),
{
    if starts.len() == 0 {
        true
    } else {
        &&& receipts_fresh(state, starts.drop_last(), seen.drop_last())
        &&& match seen.last().reply {
            Poll::Ready(Ok(receipt)) => !has_key(
                state.settle_starts(starts.drop_last(), seen.drop_last()).state.waits,
                receipt_key(receipt),
            ),
            _ => true,
        }
    }
}

/// A round loses, duplicates and invents no message: what was pending before it is
/// pending after it or was handed out as a result, and not both. So each result belongs
/// to a message that was pending before the round and is no longer. It only takes that no
/// receipt names a proof that is waited for already.
pub proof fn round_accounts_for_every_message(
    state: ManagerState,
    starts_seen: Seq<StartObservation>,
    ages: Seq<u128>,
    sessions_seen: Seq<SessionObservation>,
)
    requires
        state.coherent(),
        state.saw(starts_seen, ages, sessions_seen),
        receipts_fresh(
            ManagerState { starts: Seq::empty(), ..state },
            state.starts,
            starts_seen,
        ),
    ensures
        ({
            let round = state.tick(starts_seen, ages, sessions_seen);
            state.deliveries() == round.state.deliveries().add(
                of_results(round.results).to_multiset(),
            )
        }),
{
    let round = state.tick(starts_seen, ages, sessions_seen);
    let none = Seq::<Delivery>::empty();
    none.to_multiset_ensures();
    assert(none.to_multiset() =~= Multiset::<Delivery>::empty());

    let cleared = ManagerState { starts: Seq::empty(), ..state };
    let answered = state.answered(starts_seen);
    lemma_settle_starts(cleared, state.starts, starts_seen);
    assert(of_starts(cleared.starts) =~= none);
    assert(cleared.deliveries().add(of_starts(state.starts).to_multiset())
        =~= state.deliveries());

    let fresh = ManagerState { waits: Seq::empty(), ..answered.state };
    let aged = answered.state.aged(ages);
    lemma_age_waits(fresh, answered.state.waits, ages);
    assert(of_waits(fresh.waits) =~= none);
    assert(fresh.deliveries().add(of_waits(answered.state.waits).to_multiset())
        =~= answered.state.deliveries());

    backchannel_round_leaves_sessions(state, starts_seen, ages);
    let first = state.tick_backchannels(starts_seen, ages);
    let all = first.state.sessions;
    let n = all.len() as int;
    let empty = ManagerState { sessions: Seq::empty(), ..first.state };
    let second = first.state.tick_sessions(sessions_seen);
    lemma_settle_sessions(empty, state.direct_links, all, sessions_seen, n);
    assert(all.take(n) =~= all);
    assert(sessions_seen.take(n) =~= sessions_seen);
    assert(empty.deliveries().add(of_sessions(all)) =~= first.state.deliveries());

    lemma_results_add(answered.results, aged.results);
    lemma_results_add(first.results, second.results);
    assert(state.deliveries() =~= round.state.deliveries().add(
        of_results(round.results).to_multiset(),
    ));
}

/// A message that a cached link takes is one more delivery over it, and nothing else
/// changes.
pub proof fn attaching_adds_the_message(
    state: ManagerState,
    message: LxMessageView,
    dest_hash: [u8; 16],
    idle: u128,
    now: Instant,
)
    requires
        state.attachable(dest_hash, idle),
    ensures
        state.attached(message, dest_hash, now).deliveries() == state.deliveries().insert(
            (state.direct_links[dest_hash], message.hash),
        ),
{
    let link_id = state.direct_links[dest_hash];
    lemma_key_index(state.sessions, link_id);
    let i = key_index(state.sessions, link_id)->0;
    let session = state.sessions[i].1;
    let after = session.attach(message, now);
    message_joins_the_end_of_the_line(session, message, now);
    lemma_sessions_update(state.sessions, i, (link_id, after));
    assert(over(link_id, hashes(after.line())) =~= over(link_id, hashes(session.line())).push(
        (link_id, message.hash),
    ));
    lemma_push(over(link_id, hashes(session.line())), (link_id, message.hash));
    let (old_sum, new_sum) = (
        of_sessions(state.sessions),
        of_sessions(state.attached(message, dest_hash, now).sessions),
    );
    assert(new_sum.add(of_session(state.sessions[i])) == old_sum.add(
        of_session(state.sessions[i]).insert((link_id, message.hash)),
    ));
    assert(new_sum =~= old_sum.insert((link_id, message.hash))) by {
        assert forall|d: Delivery| new_sum.count(d) == old_sum.insert(
            (link_id, message.hash),
        ).count(d) by {
            assert(new_sum.add(of_session(state.sessions[i])).count(d) == old_sum.add(
                of_session(state.sessions[i]).insert((link_id, message.hash)),
            ).count(d));
        }
    }
    assert(state.attached(message, dest_hash, now).deliveries() =~= state.deliveries().insert(
        (link_id, message.hash),
    ));
}

/// Dropping an unusable cache entry touches no message.
pub proof fn releasing_loses_no_message(state: ManagerState, dest_hash: [u8; 16], idle: u128)
    requires
        !state.attachable(dest_hash, idle),
    ensures
        state.released(dest_hash, idle).deliveries() == state.deliveries(),
{
    if state.direct_links.contains_key(dest_hash) {
        let link_id = state.direct_links[dest_hash];
        lemma_key_index(state.sessions, link_id);
        if let Some(i) = key_index(state.sessions, link_id) {
            lemma_sessions_remove(state.sessions, i);
            let none = over(link_id, hashes(state.sessions[i].1.line()));
            none.to_multiset_ensures();
            if state.released(dest_hash, idle).sessions != state.sessions {
                assert(none =~= Seq::<Delivery>::empty());
                assert(none.to_multiset() =~= Multiset::<Delivery>::empty());
            }
        }
    }
    assert(state.released(dest_hash, idle).deliveries() =~= state.deliveries());
}

proof fn lemma_sessions_len(sessions: Seq<([u8; 16], SessionView)>)
    ensures
        of_sessions(sessions).len() == owned_by(sessions),
    decreases sessions.len(),
{
    if sessions.len() > 0 {
        let entry = sessions.last();
        lemma_sessions_len(sessions.drop_last());
        lemma_owned_push(sessions.drop_last(), entry);
        assert(sessions.drop_last().push(entry) =~= sessions);
        over(entry.0, hashes(entry.1.line())).to_multiset_ensures();
    }
}

/// The number of deliveries is the count that the manager gives.
pub proof fn deliveries_are_counted(state: ManagerState)
    ensures
        state.deliveries().len() == state.delivery_count(),
{
    lemma_sessions_len(state.sessions);
    of_starts(state.starts).to_multiset_ensures();
    of_waits(state.waits).to_multiset_ensures();
}

/// A message for which a link was opened is one more delivery over it, and nothing else
/// changes.
pub proof fn opening_adds_the_message(
    state: ManagerState,
    request: OpenRequestView,
    link_id: [u8; 16],
    result_tx: oneshot::Sender<LinkReply>,
    receiver: oneshot::Receiver<LinkReply>,
    now: Instant,
)
    requires
        !has_key(state.sessions, link_id),
    ensures
        state.opened(request, link_id, result_tx, receiver, now).deliveries()
            == state.deliveries().insert((link_id, request.message.hash)),
{
    let session = request.session(link_id, receiver, now);
    let none = Seq::<Delivery>::empty();
    none.to_multiset_ensures();
    lemma_sessions_push(state.sessions, (link_id, session));
    assert(over(link_id, hashes(session.line())) =~= none.push((link_id, request.message.hash)));
    lemma_push(none, (link_id, request.message.hash));
    assert(none.to_multiset() =~= Multiset::<Delivery>::empty());
    assert(state.opened(request, link_id, result_tx, receiver, now).deliveries()
        =~= state.deliveries().insert((link_id, request.message.hash)));
}

/// A message that a backchannel took is one more delivery over it, and nothing else
/// changes.
pub proof fn backchannel_start_adds_the_message(
    state: ManagerState,
    message: LxMessageView,
    dest_hash: [u8; 16],
    link_id: [u8; 16],
    receiver: oneshot::Receiver<BackchannelReply>,
    now: Instant,
)
    ensures
        state.backchannel_started(message, dest_hash, link_id, receiver, now).deliveries()
            == state.deliveries().insert((link_id, message.hash)),
{
    let after = state.backchannel_started(message, dest_hash, link_id, receiver, now);
    lemma_starts_push(state.starts, after.starts.last());
    assert(after.deliveries() =~= state.deliveries().insert((link_id, message.hash)));
}

/// A proof ends the delivery that its result is about, and no other.
pub proof fn proof_ends_its_delivery(state: ManagerState, key: BackchannelProofKey)
    requires
        state.proof_result(key) is Some,
    ensures
        state.deliveries() == state.proved(key).deliveries().insert(
            (state.proof_result(key)->0.link(), state.proof_result(key)->0.hash()),
        ),
{
    lemma_key_index(state.waits, key);
    let i = key_index(state.waits, key)->0;
    lemma_remove(of_waits(state.waits), i);
    assert(of_waits(state.waits).remove(i) =~= of_waits(state.waits.remove(i)));
    assert(state.deliveries() =~= state.proved(key).deliveries().insert(
        (state.proof_result(key)->0.link(), state.proof_result(key)->0.hash()),
    ));
}

/// What has a property and what has it not make up the whole.
proof fn lemma_parts<A>(s: Seq<A>, p: spec_fn(A) -> bool, q: spec_fn(A) -> bool, f: spec_fn(A) -> Delivery)
    requires
        forall|a: A| #[trigger] q(a) == !p(a),
    ensures
        s.map_values(f).to_multiset() == s.filter(p).map_values(f).to_multiset().add(
            s.filter(q).map_values(f).to_multiset(),
        ),
    decreases s.len(),
{
    reveal(Seq::filter);
    if s.len() == 0 {
        let none = Seq::<Delivery>::empty();
        none.to_multiset_ensures();
        assert(s.map_values(f) =~= none);
        assert(s.filter(p).map_values(f) =~= none);
        assert(s.filter(q).map_values(f) =~= none);
        assert(none.to_multiset() =~= Multiset::<Delivery>::empty());
        assert(none.to_multiset().add(none.to_multiset()) =~= none.to_multiset());
    } else {
        let (rest, last) = (s.drop_last(), s.last());
        lemma_parts(rest, p, q, f);
        assert(q(last) == !p(last));
        assert(s.map_values(f) =~= rest.map_values(f).push(f(last)));
        lemma_push(rest.map_values(f), f(last));
        let (hit, miss) = (rest.filter(p).map_values(f), rest.filter(q).map_values(f));
        if p(last) {
            assert(s.filter(p).map_values(f) =~= hit.push(f(last)));
            lemma_push(hit, f(last));
        } else {
            assert(s.filter(q).map_values(f) =~= miss.push(f(last)));
            lemma_push(miss, f(last));
        }
        assert(s.map_values(f).to_multiset() =~= s.filter(p).map_values(f).to_multiset().add(
            s.filter(q).map_values(f).to_multiset(),
        ));
    }
}

/// A closed inbound link ends the deliveries over it that its results are about, and no
/// others.
pub proof fn closed_link_accounts_for_every_message(
    state: ManagerState,
    link_id: [u8; 16],
    reason: Seq<char>,
)
    ensures
        ({
            let lost = state.fail_backchannel_link(link_id, reason);
            state.deliveries() == lost.state.deliveries().add(
                of_results(lost.results).to_multiset(),
            )
        }),
{
    let lost = state.fail_backchannel_link(link_id, reason);
    let hit_start = |start: StartView| start.link_id == link_id;
    let miss_start = |start: StartView| start.link_id != link_id;
    let hit_wait = |entry: (BackchannelProofKey, ProofWaitView)| entry.1.link_id == link_id;
    let miss_wait = |entry: (BackchannelProofKey, ProofWaitView)| entry.1.link_id != link_id;
    lemma_parts(
        state.starts,
        hit_start,
        miss_start,
        |start: StartView| (start.link_id, start.message.hash),
    );
    lemma_parts(
        state.waits,
        hit_wait,
        miss_wait,
        |entry: (BackchannelProofKey, ProofWaitView)| (entry.1.link_id, entry.1.message.hash),
    );
    let starts = state.starts.filter(hit_start);
    let waits = state.waits.filter(hit_wait);
    let first = starts.map_values(|start: StartView| start.failed_result(reason));
    let then = waits.map_values(
        |entry: (BackchannelProofKey, ProofWaitView)| entry.1.failed_result(reason),
    );
    assert(of_results(first) =~= of_starts(starts));
    assert(of_results(then) =~= of_waits(waits));
    lemma_results_add(first, then);
    assert(state.deliveries() =~= lost.state.deliveries().add(
        of_results(lost.results).to_multiset(),
    ));
}

/// Failing a message by its hash ends the deliveries that its results are about, and no
/// others, unless the message was delivered already and its link is idle since.
pub proof fn failing_by_hash_accounts_for_every_message(
    state: ManagerState,
    msg_hash: [u8; 32],
    reason: Seq<char>,
)
    requires
        state.session_holding(msg_hash) matches Some(i) ==> state.sessions[i].1.msg_hash == Some(
            msg_hash,
        ) ==> state.sessions[i].1.state !is Idle,
    ensures
        ({
            let failed = state.fail_by_hash(msg_hash, reason);
            state.deliveries() == failed.state.deliveries().add(
                of_results(failed.results).to_multiset(),
            )
        }),
{
    let failed = state.fail_by_hash(msg_hash, reason);
    lemma_first_where(state.sessions, holding(msg_hash));
    lemma_first_where(state.starts, start_of(msg_hash));
    lemma_first_where(state.waits, wait_of(msg_hash));
    if let Some(i) = state.session_holding(msg_hash) {
        let (link_id, session) = state.sessions[i];
        let line = hashes(session.line());
        if session.msg_hash == Some(msg_hash) {
            lemma_sessions_remove(state.sessions, i);
            assert(of_results(failed.results) =~= over(link_id, line));
        } else {
            lemma_first_where(session.queue, queued_as(msg_hash));
            let at = queued_index(session.queue, msg_hash)->0;
            let shorter = SessionView { queue: session.queue.remove(at), ..session };
            let place = if session.state is Idle {
                at
            } else {
                at + 1
            };
            lemma_one_result(failed.results);
            lemma_sessions_update(state.sessions, i, (link_id, shorter));
            assert(over(link_id, hashes(shorter.line())) =~= over(link_id, line).remove(place));
            lemma_remove(over(link_id, line), place);
            let (old_sum, new_sum) = (
                of_sessions(state.sessions),
                of_sessions(failed.state.sessions),
            );
            assert(new_sum.add(of_session(state.sessions[i])) == old_sum.add(
                of_session((link_id, shorter)),
            ));
            assert(old_sum =~= new_sum.insert((link_id, Some(msg_hash)))) by {
                assert forall|d: Delivery| old_sum.count(d) == new_sum.insert(
                    (link_id, Some(msg_hash)),
                ).count(d) by {
                    assert(new_sum.add(of_session(state.sessions[i])).count(d) == old_sum.add(
                        of_session((link_id, shorter)),
                    ).count(d));
                }
            }
        }
    } else if let Some(i) = state.start_holding(msg_hash) {
        lemma_one_result(failed.results);
        lemma_remove(of_starts(state.starts), i);
        assert(of_starts(state.starts).remove(i) =~= of_starts(state.starts.remove(i)));
    } else if let Some(i) = state.wait_holding(msg_hash) {
        lemma_one_result(failed.results);
        lemma_remove(of_waits(state.waits), i);
        assert(of_waits(state.waits).remove(i) =~= of_waits(state.waits.remove(i)));
    } else {
        lemma_no_results(failed.results);
    }
    assert(state.deliveries() =~= failed.state.deliveries().add(
        of_results(failed.results).to_multiset(),
    ));
}

} // verus!
