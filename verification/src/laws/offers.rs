//! What reaches the runtime over the command channel, and what does not.

use std::time::Instant;
use tokio::sync::oneshot;
use vstd::prelude::*;

use crate::backchannel::{
    BackchannelProofKey, BackchannelReply, BackchannelStartFailure, BackchannelStartReport,
    ProofWaitView, SendOutcome, StartView,
};
use crate::channel::Offer;
use crate::commands::LinkReply;
use crate::manager::backchannel::{backchannel_offer, offer_concluded};
use crate::message::LxMessageView;
use crate::model::{ManagerState, OpenRequestView, SessionObservation, StartObservation};
use crate::session::SessionView;

verus! {

impl ManagerState {
    /// The commands that were put on the command channel, in order.
    pub open spec fn commands_put(self) -> Seq<Offer> {
        self.offers.filter(|offer: Offer| offer.outcome is Sent)
    }
}

/// A backchannel delivery that is started puts one command on the channel: the wire form
/// of its message, for the link that is registered for the destination and that the
/// report names. The registration is kept, and there is one delivery more. One that is
/// not started puts no command there and leaves the deliveries alone.
pub proof fn backchannel_start_puts_one_command(
    before: ManagerState,
    message: LxMessageView,
    dest_hash: [u8; 16],
    outcome: SendOutcome,
    result_tx: oneshot::Sender<BackchannelReply>,
    receiver: oneshot::Receiver<BackchannelReply>,
    now: Instant,
    after: ManagerState,
    started: Result<BackchannelStartReport, BackchannelStartFailure>,
)
    requires
        offer_concluded(
            before.with_offer(
                backchannel_offer(before, message, dest_hash, result_tx, outcome),
            ),
            message,
            dest_hash,
            before.backchannel_links[dest_hash],
            outcome,
            receiver,
            now,
            after,
            started,
        ),
    ensures
        match started {
            Ok(report) => {
                &&& after.commands_put() == before.commands_put().push(
                    backchannel_offer(before, message, dest_hash, result_tx, outcome),
                )
                &&& report.link_id == before.backchannel_links[dest_hash]
                &&& after.backchannel_links == before.backchannel_links
                &&& after.delivery_count() == before.delivery_count() + 1
            },
            Err(_) => {
                &&& after.commands_put() == before.commands_put()
                &&& after.delivery_count() == before.delivery_count()
            },
        },
{
    reveal(Seq::filter);
    let offer = backchannel_offer(before, message, dest_hash, result_tx, outcome);
    assert(before.offers.push(offer).drop_last() =~= before.offers);
    assert(after.offers == before.offers.push(offer));
}

proof fn lemma_settle_starts_offer_nothing(
    state: ManagerState,
    starts: Seq<StartView>,
    seen: Seq<StartObservation>,
)
    ensures
        state.settle_starts(starts, seen).state.offers == state.offers,
    decreases starts.len(),
{
    if starts.len() > 0 {
        lemma_settle_starts_offer_nothing(state, starts.drop_last(), seen.drop_last());
    }
}

proof fn lemma_age_waits_offer_nothing(
    state: ManagerState,
    waits: Seq<(BackchannelProofKey, ProofWaitView)>,
    ages: Seq<u128>,
)
    ensures
        state.age_waits(waits, ages).state.offers == state.offers,
    decreases waits.len(),
{
    if waits.len() > 0 {
        lemma_age_waits_offer_nothing(state, waits.drop_last(), ages.drop_last());
    }
}

proof fn lemma_settle_sessions_offer_nothing(
    state: ManagerState,
    sessions: Seq<([u8; 16], SessionView)>,
    seen: Seq<SessionObservation>,
)
    ensures
        state.settle_sessions(sessions, seen).state.offers == state.offers,
    decreases sessions.len(),
{
    if sessions.len() > 0 {
        lemma_settle_sessions_offer_nothing(state, sessions.drop_last(), seen.drop_last());
    }
}

/// A round offers no command over the command channel.
pub proof fn round_offers_nothing(
    state: ManagerState,
    starts_seen: Seq<StartObservation>,
    ages: Seq<u128>,
    sessions_seen: Seq<SessionObservation>,
)
    ensures
        state.tick(starts_seen, ages, sessions_seen).state.offers == state.offers,
{
    lemma_settle_starts_offer_nothing(
        ManagerState { starts: Seq::empty(), ..state },
        state.starts,
        starts_seen,
    );
    let answered = state.answered(starts_seen).state;
    lemma_age_waits_offer_nothing(
        ManagerState { waits: Seq::empty(), ..answered },
        answered.waits,
        ages,
    );
    let middle = state.tick_backchannels(starts_seen, ages).state;
    lemma_settle_sessions_offer_nothing(
        ManagerState { sessions: Seq::empty(), ..middle },
        middle.sessions,
        sessions_seen,
    );
}

/// Starting a Direct delivery and noting a link that was opened offer no command over
/// the command channel.
pub proof fn direct_delivery_offers_nothing(
    state: ManagerState,
    message: LxMessageView,
    dest_hash: [u8; 16],
    idle: u128,
    request: OpenRequestView,
    link_id: [u8; 16],
    result_tx: oneshot::Sender<LinkReply>,
    receiver: oneshot::Receiver<LinkReply>,
    now: Instant,
)
    ensures
        state.attached(message, dest_hash, now).offers == state.offers,
        state.released(dest_hash, idle).offers == state.offers,
        state.opened(request, link_id, result_tx, receiver, now).offers == state.offers,
{
}

/// Ending deliveries offers no command over the command channel, be it for a proof, a
/// closed link or by the hash of a message.
pub proof fn ending_deliveries_offers_nothing(
    state: ManagerState,
    key: BackchannelProofKey,
    link_id: [u8; 16],
    msg_hash: [u8; 32],
    reason: Seq<char>,
)
    ensures
        state.proved(key).offers == state.offers,
        state.fail_backchannel_link(link_id, reason).state.offers == state.offers,
        state.fail_by_hash(msg_hash, reason).state.offers == state.offers,
        state.cancel_by_hash(msg_hash).offers == state.offers,
{
}

} // verus!
