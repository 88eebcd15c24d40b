//! What the manager reports and what it answers when asked agree.

use std::time::Instant;
use tokio::sync::oneshot;
use vstd::prelude::*;

use super::coherence::cached_link_has_its_session;
use super::conservation::{
    attaching_adds_one_delivery, opening_adds_one_delivery, releasing_loses_no_delivery,
};
use crate::commands::LinkReply;
use crate::failure::LinkDeliveryStartFailure;
use crate::keyed::{has_key, key_index, lemma_key_index, lemma_value_with_entry};
use crate::manager::start::direct_start_is;
use crate::message::LxMessageView;
use crate::model::{
    session_coherent, DirectLinkStartKind, LinkSnapshotView, ManagerState, OpenRequestView,
    StartReportView,
};
use crate::reports::DirectStart;

verus! {

/// Whether a start report says of a link what a snapshot says of it.
pub open spec fn agree(report: StartReportView, snapshot: LinkSnapshotView) -> bool {
    &&& report.link_id == snapshot.link_id
    &&& report.dest_hash == snapshot.dest_hash
    &&& report.link_state == snapshot.link_state
    &&& report.delivery_state == snapshot.delivery_state
    &&& report.queued_deliveries == snapshot.queued_deliveries
    &&& report.in_flight_deliveries == snapshot.in_flight_deliveries
}

/// A Direct start asks for a new link exactly if there was no link to the destination or
/// it was idle for too long, or hands the message back. Otherwise the link that was there
/// takes the message, the report names it and says what its snapshot says afterwards,
/// whenever that is taken, and there is one delivery more.
pub proof fn direct_start_agrees_with_the_snapshots(
    before: ManagerState,
    message: LxMessageView,
    dest_hash: [u8; 16],
    hops: u8,
    idle: u128,
    now: Instant,
    after: ManagerState,
    started: Result<DirectStart, LinkDeliveryStartFailure>,
    later: u128,
)
    requires
        before.coherent(),
        direct_start_is(before, message, dest_hash, hops, idle, now, after, started),
    ensures
        (started matches Ok(DirectStart::Attached(_))) <==> (before.link_snapshot(
            dest_hash,
            idle,
        ) matches Some(link) && !link.idle_expired),
        started matches Ok(DirectStart::Attached(report)) ==> {
            &&& report.kind != DirectLinkStartKind::NewDirect
            &&& report.link_id == before.link_snapshot(dest_hash, idle)->0.link_id
            &&& after.link_snapshot(dest_hash, later) matches Some(link) && agree(report@, link)
            &&& after.delivery_count() == before.delivery_count() + 1
        },
        !(started matches Ok(DirectStart::Attached(_))) ==> {
            &&& after.link_snapshot(dest_hash, later) is None
            &&& after.delivery_count() == before.delivery_count()
        },
{
    if before.direct_links.contains_key(dest_hash) {
        cached_link_has_its_session(before, dest_hash);
    }
    if before.attachable(dest_hash, idle) {
        let link_id = before.direct_links[dest_hash];
        let session = before.cached_session(dest_hash)->0.attach(message, now);
        lemma_value_with_entry(before.sessions, link_id, session, link_id);
        attaching_adds_one_delivery(before, message, dest_hash, idle, now);
    } else {
        releasing_loses_no_delivery(before, dest_hash, idle);
    }
}

/// The report of a new link says what the link's snapshot says afterwards, whenever that
/// is taken, and there is one delivery more.
pub proof fn opened_link_agrees_with_its_snapshot(
    state: ManagerState,
    request: OpenRequestView,
    link_id: [u8; 16],
    result_tx: oneshot::Sender<LinkReply>,
    receiver: oneshot::Receiver<LinkReply>,
    now: Instant,
    later: u128,
)
    requires
        state.coherent(),
        !has_key(state.sessions, link_id),
        request.reusable,
    ensures
        ({
            let after = state.opened(request, link_id, result_tx, receiver, now);
            &&& request.report(link_id).kind == DirectLinkStartKind::NewDirect
            &&& after.link_snapshot(request.dest_hash, later) matches Some(link)
            &&& agree(request.report(link_id), link)
            &&& after.delivery_count() == state.delivery_count() + 1
        }),
{
    lemma_value_with_entry(
        state.sessions,
        link_id,
        request.session(link_id, receiver, now),
        link_id,
    );
    opening_adds_one_delivery(state, request, link_id, result_tx, receiver, now);
}

/// A destination has a link exactly if the snapshot of its Direct link shows one that is
/// neither closed nor idle for too long, or it has a backchannel. A link that is used
/// once does not count.
pub proof fn availability_agrees_with_the_snapshots(
    state: ManagerState,
    dest_hash: [u8; 16],
    idle: u128,
)
    requires
        state.coherent(),
    ensures
        state.link_available(dest_hash, idle) <==> {
            ||| state.link_snapshot(dest_hash, idle) matches Some(link) && link.link_state
                !is Closed && !link.idle_expired
            ||| state.backchannel_snapshot(dest_hash) is Some
        },
{
    if state.direct_links.contains_key(dest_hash) {
        cached_link_has_its_session(state, dest_hash);
    }
}

/// There is a snapshot of the Direct link to a destination exactly if a reusable session
/// goes to it, and it names the link of that session.
pub proof fn snapshot_shows_the_reusable_session(
    state: ManagerState,
    dest_hash: [u8; 16],
    idle: u128,
)
    requires
        state.coherent(),
    ensures
        match state.link_snapshot(dest_hash, idle) {
            Some(link) => exists|i: int|
                {
                    &&& 0 <= i < state.sessions.len()
                    &&& (#[trigger] state.sessions[i]).0 == link.link_id
                    &&& state.sessions[i].1.reusable
                    &&& state.sessions[i].1.dest_hash == dest_hash
                },
            None => forall|i: int|
                0 <= i < state.sessions.len() ==> !((#[trigger] state.sessions[i]).1.reusable
                    && state.sessions[i].1.dest_hash == dest_hash),
        },
{
    if state.direct_links.contains_key(dest_hash) {
        let link_id = state.direct_links[dest_hash];
        cached_link_has_its_session(state, dest_hash);
        lemma_key_index(state.sessions, link_id);
        assert(state.sessions[key_index(state.sessions, link_id)->0].0 == link_id);
    } else {
        assert forall|i: int| 0 <= i < state.sessions.len() implies !((
        #[trigger] state.sessions[i]).1.reusable && state.sessions[i].1.dest_hash
            == dest_hash) by {
            assert(session_coherent(state.direct_links, state.sessions[i]));
        }
    }
}

} // verus!
