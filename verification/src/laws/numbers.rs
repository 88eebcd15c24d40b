//! What the aggregate numbers count.

use vstd::prelude::*;

use crate::backchannel::{BackchannelProofKey, ProofWaitView, StartView};
use crate::counts::{lemma_owned_push, lemma_stats_none, lemma_stats_step, one_if};
use crate::model::{ManagerState, StatsView};
use crate::session::SessionView;

verus! {

/// A manager that has done nothing counts nothing.
pub proof fn nothing_counts_nothing()
    ensures
        ({
            let stats = ManagerState::initial().stats();
            &&& stats.sessions == 0
            &&& stats.direct_sessions == 0
            &&& stats.one_shot_sessions == 0
            &&& stats.backchannel_sessions == 0
            &&& stats.establishing_direct_sessions == 0
            &&& stats.active_direct_sessions == 0
            &&& stats.idle_direct_sessions == 0
            &&& stats.queued_deliveries == 0
            &&& stats.in_flight_deliveries == 0
            &&& stats.pending_backchannel_starts == 0
            &&& stats.pending_backchannel_deliveries == 0
            &&& ManagerState::initial().delivery_count() == 0
            &&& stats == StatsView::zero()
        }),
{
    lemma_stats_none(ManagerState::initial().sessions);
    assert(ManagerState::initial().backchannel_links.dom() =~= Set::<[u8; 16]>::empty());
}

/// One more session counts once: as a Direct one or as one that is used once, among those
/// that are being established, active or idle if it is a Direct one, with all that waits
/// for it, and with the delivery that is under way unless it is idle.
pub proof fn one_more_session_counts_once(state: ManagerState, entry: ([u8; 16], SessionView))
    ensures
        ({
            let (before, after) = (state.stats(), state.with_session(entry).stats());
            let session = entry.1;
            let under_way = one_if(session.state !is Idle);
            &&& after.sessions == before.sessions + 1
            &&& after.direct_sessions == before.direct_sessions + one_if(session.reusable)
            &&& after.one_shot_sessions == before.one_shot_sessions + one_if(!session.reusable)
            &&& after.establishing_direct_sessions == before.establishing_direct_sessions + one_if(
                session.reusable && session.state is Establishing,
            )
            &&& after.active_direct_sessions == before.active_direct_sessions + one_if(
                session.reusable && session.link_state is Active,
            )
            &&& after.idle_direct_sessions == before.idle_direct_sessions + one_if(
                session.reusable && session.state is Idle,
            )
            &&& after.queued_deliveries == before.queued_deliveries + session.queue.len()
            &&& after.in_flight_deliveries == before.in_flight_deliveries + under_way
            &&& after.backchannel_sessions == before.backchannel_sessions
            &&& after.pending_backchannel_starts == before.pending_backchannel_starts
            &&& after.pending_backchannel_deliveries == before.pending_backchannel_deliveries
            &&& state.with_session(entry).delivery_count() == state.delivery_count()
                + session.queue.len() + under_way
        }),
{
    let sessions = state.with_session(entry).sessions;
    let i = state.sessions.len() as int;
    assert(sessions.take(i) =~= state.sessions);
    assert(sessions.take(i + 1) =~= sessions);
    lemma_stats_step(sessions, i);
    lemma_owned_push(state.sessions, entry);
}

/// One more send command without an answer is one more that is queued, and one more for
/// its destination; one more send that waits for its proof is one more in flight, and one
/// more for its destination.
pub proof fn one_more_send_counts_once(
    state: ManagerState,
    start: StartView,
    entry: (BackchannelProofKey, ProofWaitView),
    dest_hash: [u8; 16],
)
    ensures
        ({
            let commanded = ManagerState { starts: state.starts.push(start), ..state };
            let (before, after) = (state.stats(), commanded.stats());
            &&& after.queued_deliveries == before.queued_deliveries + 1
            &&& after.pending_backchannel_starts == before.pending_backchannel_starts + 1
            &&& after.in_flight_deliveries == before.in_flight_deliveries
            &&& after.pending_backchannel_deliveries == before.pending_backchannel_deliveries
            &&& commanded.delivery_count() == state.delivery_count() + 1
            &&& state.backchannel_links.contains_key(dest_hash) ==> {
                let (old_one, new_one) = (
                    state.backchannel_snapshot(dest_hash)->0,
                    commanded.backchannel_snapshot(dest_hash)->0,
                );
                &&& new_one.queued_deliveries == old_one.queued_deliveries + one_if(
                    start.dest_hash == dest_hash,
                )
                &&& new_one.in_flight_deliveries == old_one.in_flight_deliveries
            }
        }),
        ({
            let awaited = ManagerState { waits: state.waits.push(entry), ..state };
            let (before, after) = (state.stats(), awaited.stats());
            &&& after.in_flight_deliveries == before.in_flight_deliveries + 1
            &&& after.pending_backchannel_deliveries == before.pending_backchannel_deliveries + 1
            &&& after.queued_deliveries == before.queued_deliveries
            &&& after.pending_backchannel_starts == before.pending_backchannel_starts
            &&& awaited.delivery_count() == state.delivery_count() + 1
            &&& state.backchannel_links.contains_key(dest_hash) ==> {
                let (old_one, new_one) = (
                    state.backchannel_snapshot(dest_hash)->0,
                    awaited.backchannel_snapshot(dest_hash)->0,
                );
                &&& new_one.in_flight_deliveries == old_one.in_flight_deliveries + one_if(
                    entry.1.dest_hash == dest_hash,
                )
                &&& new_one.queued_deliveries == old_one.queued_deliveries
            }
        }),
{
    state.starts.lemma_filter_push(start, |start: StartView| start.dest_hash == dest_hash);
    state.waits.lemma_filter_push(
        entry,
        |entry: (BackchannelProofKey, ProofWaitView)| entry.1.dest_hash == dest_hash,
    );
}

/// There is a snapshot of a backchannel exactly if one is registered for the destination;
/// it names the destination and the registered link, and counts nothing while nothing goes
/// over backchannels. The backchannels that are counted are those that are registered.
pub proof fn registered_backchannels_are_counted(
    state: ManagerState,
    dest_hash: [u8; 16],
    link_id: [u8; 16],
)
    requires
        state.backchannel_links.dom().finite(),
    ensures
        state.backchannel_snapshot(dest_hash) is Some <==> state.backchannel_links.contains_key(
            dest_hash,
        ),
        state.backchannel_snapshot(dest_hash) matches Some(snapshot) ==> {
            &&& snapshot.link_id == state.backchannel_links[dest_hash]
            &&& snapshot.dest_hash == dest_hash
            &&& state.starts.len() == 0 ==> snapshot.queued_deliveries == 0
            &&& state.waits.len() == 0 ==> snapshot.in_flight_deliveries == 0
        },
        (ManagerState {
            backchannel_links: state.backchannel_links.insert(dest_hash, link_id),
            ..state
        }).stats().backchannel_sessions == state.stats().backchannel_sessions + one_if(
            !state.backchannel_links.contains_key(dest_hash),
        ),
{
    reveal(Seq::filter);
    let links = state.backchannel_links;
    assert(links.insert(dest_hash, link_id).dom() =~= links.dom().insert(dest_hash));
}

} // verus!
