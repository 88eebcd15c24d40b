//! How the number of owned deliveries changes.

use vstd::prelude::*;

use crate::backchannel::{BackchannelProofKey, ProofWaitView, StartView};
use crate::keyed::{key_index, lemma_key_index, with_entry, without_key};
use crate::model::{
    active_among, establishing_among, idle_among, in_flight_by, one_shot_among, owned_by,
    queued_by, reusable_among, starts_to, waits_to,
};
use crate::seqs::{
    lemma_count_step, lemma_total_push, lemma_total_remove, lemma_total_step, lemma_total_update,
};
use crate::session::SessionView;

verus! {

/// A session entered under a link that had one takes its place; under a new link it
/// comes on top.
pub proof fn lemma_owned_with_entry(
    sessions: Seq<([u8; 16], SessionView)>,
    link_id: [u8; 16],
    session: SessionView,
)
    ensures
        match key_index(sessions, link_id) {
            Some(i) => owned_by(with_entry(sessions, link_id, session)) + sessions[i].1.owned()
                == owned_by(sessions) + session.owned(),
            None => owned_by(with_entry(sessions, link_id, session)) == owned_by(sessions)
                + session.owned(),
        },
{
    let f = |entry: ([u8; 16], SessionView)| entry.1.owned();
    lemma_key_index(sessions, link_id);
    match key_index(sessions, link_id) {
        Some(i) => lemma_total_update(sessions, i, (link_id, session), f),
        None => lemma_total_push(sessions, (link_id, session), f),
    }
}

/// A session that is taken out takes its deliveries along.
pub proof fn lemma_owned_remove(sessions: Seq<([u8; 16], SessionView)>, i: int)
    requires
        0 <= i < sessions.len(),
    ensures
        owned_by(sessions.remove(i)) + sessions[i].1.owned() == owned_by(sessions),
{
    lemma_total_remove(sessions, i, |entry: ([u8; 16], SessionView)| entry.1.owned());
}

/// A session that changes changes what it owns.
pub proof fn lemma_owned_update(
    sessions: Seq<([u8; 16], SessionView)>,
    i: int,
    entry: ([u8; 16], SessionView),
)
    requires
        0 <= i < sessions.len(),
    ensures
        owned_by(sessions.update(i, entry)) + sessions[i].1.owned() == owned_by(sessions)
            + entry.1.owned(),
{
    lemma_total_update(sessions, i, entry, |entry: ([u8; 16], SessionView)| entry.1.owned());
}

/// A session that is added adds what it owns.
pub proof fn lemma_owned_push(
    sessions: Seq<([u8; 16], SessionView)>,
    entry: ([u8; 16], SessionView),
)
    ensures
        owned_by(sessions.push(entry)) == owned_by(sessions) + entry.1.owned(),
{
    lemma_total_push(sessions, entry, |entry: ([u8; 16], SessionView)| entry.1.owned());
}

/// No session owns more than all of them.
pub proof fn lemma_owned_bounds(sessions: Seq<([u8; 16], SessionView)>, i: int)
    requires
        0 <= i < sessions.len(),
    ensures
        sessions[i].1.owned() <= owned_by(sessions),
{
    lemma_owned_remove(sessions, i);
}

/// What a longer prefix of the sessions owns.
pub proof fn lemma_owned_step(sessions: Seq<([u8; 16], SessionView)>, i: int)
    requires
        0 <= i < sessions.len(),
    ensures
        owned_by(sessions.take(i + 1)) == owned_by(sessions.take(i)) + sessions[i].1.owned(),
        owned_by(sessions.take(i + 1)) <= owned_by(sessions),
{
    lemma_total_step(sessions, |entry: ([u8; 16], SessionView)| entry.1.owned(), i);
}

/// The numbers of a longer prefix of the sessions.
pub proof fn lemma_stats_step(sessions: Seq<([u8; 16], SessionView)>, i: int)
    requires
        0 <= i < sessions.len(),
    ensures
        ({
            let (before, after) = (sessions.take(i), sessions.take(i + 1));
            let session = sessions[i].1;
            &&& reusable_among(after) == reusable_among(before) + one_if(session.reusable)
            &&& one_shot_among(after) == one_shot_among(before) + one_if(!session.reusable)
            &&& establishing_among(after) == establishing_among(before) + one_if(
                session.reusable && session.state is Establishing,
            )
            &&& active_among(after) == active_among(before) + one_if(
                session.reusable && session.link_state is Active,
            )
            &&& idle_among(after) == idle_among(before) + one_if(
                session.reusable && session.state is Idle,
            )
            &&& queued_by(after) == queued_by(before) + session.queue.len()
            &&& in_flight_by(after) == in_flight_by(before) + session.in_flight()
        }),
{
    lemma_count_step(sessions, |entry: ([u8; 16], SessionView)| entry.1.reusable, i);
    lemma_count_step(sessions, |entry: ([u8; 16], SessionView)| !entry.1.reusable, i);
    lemma_count_step(
        sessions,
        |entry: ([u8; 16], SessionView)| entry.1.reusable && entry.1.state is Establishing,
        i,
    );
    lemma_count_step(
        sessions,
        |entry: ([u8; 16], SessionView)| entry.1.reusable && entry.1.link_state is Active,
        i,
    );
    lemma_count_step(
        sessions,
        |entry: ([u8; 16], SessionView)| entry.1.reusable && entry.1.state is Idle,
        i,
    );
    lemma_total_step(sessions, |entry: ([u8; 16], SessionView)| entry.1.queue.len(), i);
    lemma_total_step(sessions, |entry: ([u8; 16], SessionView)| entry.1.in_flight(), i);
}

/// One where something holds, nothing where it does not.
pub open spec fn one_if(holds: bool) -> nat {
    if holds {
        1
    } else {
        0
    }
}

/// The numbers of no sessions.
pub proof fn lemma_stats_none(sessions: Seq<([u8; 16], SessionView)>)
    requires
        sessions.len() == 0,
    ensures
        reusable_among(sessions) == 0,
        one_shot_among(sessions) == 0,
        establishing_among(sessions) == 0,
        active_among(sessions) == 0,
        idle_among(sessions) == 0,
        queued_by(sessions) == 0,
        in_flight_by(sessions) == 0,
{
    reveal(Seq::filter);
}

/// What sessions own is under way or waits.
pub proof fn lemma_owned_parts(sessions: Seq<([u8; 16], SessionView)>)
    ensures
        owned_by(sessions) == queued_by(sessions) + in_flight_by(sessions),
    decreases sessions.len(),
{
    if sessions.len() > 0 {
        lemma_owned_parts(sessions.drop_last());
    }
}

/// How many of a longer prefix of unanswered sends go to a destination.
pub proof fn lemma_starts_to_step(starts: Seq<StartView>, dest_hash: [u8; 16], i: int)
    requires
        0 <= i < starts.len(),
    ensures
        starts_to(starts.take(i + 1), dest_hash) == starts_to(starts.take(i), dest_hash) + one_if(
            starts[i].dest_hash == dest_hash,
        ),
        starts_to(starts.take(i), dest_hash) <= i,
{
    lemma_count_step(starts, |start: StartView| start.dest_hash == dest_hash, i);
}

/// How many of a longer prefix of waits go to a destination.
pub proof fn lemma_waits_to_step(
    waits: Seq<(BackchannelProofKey, ProofWaitView)>,
    dest_hash: [u8; 16],
    i: int,
)
    requires
        0 <= i < waits.len(),
    ensures
        waits_to(waits.take(i + 1), dest_hash) == waits_to(waits.take(i), dest_hash) + one_if(
            waits[i].1.dest_hash == dest_hash,
        ),
        waits_to(waits.take(i), dest_hash) <= i,
{
    lemma_count_step(
        waits,
        |entry: (BackchannelProofKey, ProofWaitView)| entry.1.dest_hash == dest_hash,
        i,
    );
}

/// Sessions without one link own no more than with it.
pub proof fn lemma_owned_without_key(sessions: Seq<([u8; 16], SessionView)>, link_id: [u8; 16])
    ensures
        owned_by(without_key(sessions, link_id)) <= owned_by(sessions),
{
    lemma_key_index(sessions, link_id);
    match key_index(sessions, link_id) {
        Some(i) => lemma_owned_remove(sessions, i),
        None => {},
    }
}

} // verus!
