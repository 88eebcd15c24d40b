//! What a round does for each outbound link: a message that can go out is sent, an answer
//! ends the delivery under way, a delivery without an answer ends when its time is up, and
//! otherwise a link is left alone.

use vstd::prelude::*;

use super::parts::{lemma_session_part, newly_told};
use super::rounds::{
    left_of, round_keeps_coherence, round_leaves_what_goes_on, round_opens_no_link, settled_in,
};
use super::sending::{newly_commanded, round_sends_what_is_to_be_sent};
use crate::channel::{backchannel_reply_seen, link_answer_channel, link_reply_seen, Poll};
use crate::clock::{clock_read, elapsed_read};
use crate::commands::{CommandView, LinkPayloadSendReceipt};
use crate::events::{EventView, LxmfDeliveryEventKind, LxmfDeliveryEventMethod, ResultView};
use crate::keyed::{has_key, key_index, lemma_key_index, unique_keys, value_of};
use crate::message::LxMessageView;
use crate::model::{
    cache_entry_coherent, session_coherent, ManagerState, SessionObservation, StartObservation,
};
use crate::queue::QueuedView;
use crate::session::SessionView;
use crate::types::{DeliveryRepresentation, DeliveryState, LinkState, Progress};

verus! {

impl SessionView {
    /// Whether the link is free and a message waits for it, or a message was accepted and
    /// has not been sent.
    pub open spec fn has_something_to_send(self) -> bool {
        ||| self.state is Idle && self.queue.len() > 0
        ||| self.state is Identifying && self.runtime_result is None
    }

    /// The message whose turn it is: the one that waited longest, where the link is free,
    /// and the one that was taken already, where it is not.
    pub open spec fn at_the_front(self) -> QueuedView {
        if self.state is Idle && self.queue.len() > 0 {
            self.queue[0]
        } else {
            QueuedView {
                message: self.message,
                packed_override: self.packed_override,
                auto_compress: self.auto_compress,
                msg_hash: self.msg_hash,
            }
        }
    }

    /// The messages that wait behind the one whose turn it is.
    pub open spec fn behind_the_front(self) -> Seq<QueuedView> {
        if self.state is Idle && self.queue.len() > 0 {
            self.queue.skip(1)
        } else {
            self.queue
        }
    }

    /// Whether the message whose turn it is has something that can go over the link.
    pub open spec fn front_is_sendable(self) -> bool {
        self.at_the_front().packed_override is Some || self.at_the_front().message.packed is Ok
    }

    /// The message whose turn it is as it is after the round of its link has sent what it
    /// could: itself, with its progress at a twentieth at least once it was sent.
    pub open spec fn front_message(self) -> LxMessageView {
        let message = self.at_the_front().message;
        if self.has_something_to_send() && self.front_is_sendable() {
            LxMessageView {
                progress: if 0x3FA9_9999_9999_999A < message.progress.bits
                    <= 0x7FF0_0000_0000_0000 {
                    message.progress
                } else {
                    Progress { bits: 0x3FA9_9999_9999_999A }
                },
                ..message
            }
        } else {
            message
        }
    }

    /// Whether the link was idle and stays so: nothing is under way and nothing waits.
    pub open spec fn has_nothing_to_do(self) -> bool {
        self.state is Idle && self.queue.len() == 0
    }
}

/// Why the delivery under way ends without success, if it does: with the error that was
/// answered, because no answer will come, or because its time is up.
pub open spec fn why_it_fails(session: SessionView, seen: SessionObservation) -> Option<Seq<char>> {
    match seen.found {
        Poll::Ready(Ok(_)) => None,
        Poll::Ready(Err(reason)) => Some(reason@),
        Poll::Closed => Some("Link session task stopped"@),
        Poll::Empty => if !session.has_nothing_to_do() && seen.elapsed > session.timeout {
            Some("delivery timeout"@)
        } else {
            None
        },
    }
}

/// The form in which a payload went over a link, as its receipt says.
pub open spec fn form_of(receipt: LinkPayloadSendReceipt) -> DeliveryRepresentation {
    match receipt {
        LinkPayloadSendReceipt::Packet => DeliveryRepresentation::Packet,
        LinkPayloadSendReceipt::Resource => DeliveryRepresentation::Resource,
    }
}

/// The event that tells that the message whose turn it is was delivered.
pub open spec fn told_delivered(
    entry: ([u8; 16], SessionView),
    receipt: LinkPayloadSendReceipt,
) -> EventView {
    let (link_id, session) = entry;
    let front = session.at_the_front();
    EventView {
        kind: LxmfDeliveryEventKind::Delivered,
        method: if session.reusable {
            LxmfDeliveryEventMethod::Direct
        } else {
            LxmfDeliveryEventMethod::PropagationDeposit
        },
        link_id,
        dest_hash: session.dest_hash,
        msg_hash: front.msg_hash,
        attempts: front.message.delivery_attempts,
        progress: Some(Progress { bits: 0x3FF0_0000_0000_0000 }),
        representation: form_of(receipt),
        link_state: LinkState::Active,
        delivery_state: DeliveryState::Complete,
        queued_deliveries: session.behind_the_front().len(),
        in_flight_deliveries: 1,
        reason: None,
    }
}

/// The event that tells that the message whose turn it is failed.
pub open spec fn told_failed(
    entry: ([u8; 16], SessionView),
    seen: SessionObservation,
    reason: Seq<char>,
) -> EventView {
    let (link_id, session) = entry;
    let message = session.front_message();
    EventView {
        kind: LxmfDeliveryEventKind::Failed,
        method: if session.reusable {
            LxmfDeliveryEventMethod::Direct
        } else {
            LxmfDeliveryEventMethod::PropagationDeposit
        },
        link_id,
        dest_hash: session.dest_hash,
        msg_hash: session.at_the_front().msg_hash,
        attempts: message.delivery_attempts,
        progress: Some(message.progress),
        representation: message.representation,
        link_state: if seen.found is Empty {
            session.link_state
        } else {
            LinkState::Closed
        },
        delivery_state: if !session.has_something_to_send() {
            session.state
        } else if session.front_is_sendable() {
            DeliveryState::Transferring
        } else {
            DeliveryState::Failed
        },
        queued_deliveries: session.behind_the_front().len(),
        in_flight_deliveries: 1,
        reason: Some(reason),
    }
}

/// What was seen in a round is about what was there: the own answer channel of each send
/// command and, without an answer, its own age; the own age of each send that waits for
/// its proof; the own answer channel of each link, or the new one over which a message is
/// sent now, and, without an answer, the age of the delivery under way.
pub proof fn round_looks_at_what_is_there(
    state: ManagerState,
    starts_seen: Seq<StartObservation>,
    ages: Seq<u128>,
    sessions_seen: Seq<SessionObservation>,
    i: int,
)
    requires
        state.saw(starts_seen, ages, sessions_seen),
    ensures
        starts_seen.len() == state.starts.len(),
        ages.len() == state.answered(starts_seen).state.waits.len(),
        sessions_seen.len() == state.sessions.len(),
        0 <= i < starts_seen.len() ==> {
            &&& backchannel_reply_seen(
                state.starts[i].receiver,
                starts_seen[i].reply,
            )
            &&& starts_seen[i].reply is Empty ==> elapsed_read(
                state.starts[i].requested_at,
                starts_seen[i].waited,
            )
            &&& clock_read(starts_seen[i].now)
        },
        0 <= i < ages.len() ==> elapsed_read(
            state.answered(starts_seen).state.waits[i].1.started_at,
            ages[i],
        ),
        0 <= i < sessions_seen.len() ==> {
            let session = state.sessions[i].1;
            let seen = sessions_seen[i];
            let sent = session.has_something_to_send() && session.front_is_sendable();
            &&& session.has_something_to_send() ==> link_answer_channel(
                seen.result_tx,
                seen.receiver,
            ) && clock_read(seen.started) && clock_read(seen.launched)
            &&& sent ==> link_reply_seen(seen.receiver, seen.found)
            &&& !sent ==> match session.runtime_result {
                Some(receiver) => link_reply_seen(receiver, seen.found),
                None => seen.found is Empty,
            }
            &&& seen.found is Empty && sent ==> elapsed_read(seen.launched, seen.elapsed)
            &&& seen.found is Empty && !sent && session.state !is Idle ==> elapsed_read(
                session.started_at,
                seen.elapsed,
            )
            &&& seen.found is Empty && !sent && session.state is Idle && session.queue.len() > 0
                ==> elapsed_read(seen.started, seen.elapsed)
            &&& clock_read(seen.now)
        },
{
    if 0 <= i < starts_seen.len() {
        assert(starts_seen[i].of(state.starts[i]));
    }
    if 0 <= i < ages.len() {
        assert(elapsed_read(state.answered(starts_seen).state.waits[i].1.started_at, ages[i]));
    }
    if 0 <= i < sessions_seen.len() {
        assert(state.sessions[i].1.saw(sessions_seen[i]));
    }
}

/// In every round a message that can go out is sent over its link: the runtime is told to
/// send its override or its wire form, compressed if that may be, within the time of the
/// link's deliveries.
pub proof fn round_sends_the_front(
    state: ManagerState,
    starts_seen: Seq<StartObservation>,
    ages: Seq<u128>,
    sessions_seen: Seq<SessionObservation>,
    i: int,
)
    requires
        state.coherent(),
        state.saw(starts_seen, ages, sessions_seen),
        0 <= i < state.sessions.len(),
        state.sessions[i].1.has_something_to_send(),
        state.sessions[i].1.front_is_sendable(),
    ensures
        ({
            let (link_id, session) = state.sessions[i];
            let front = session.at_the_front();
            newly_commanded(
                state,
                state.tick(starts_seen, ages, sessions_seen).state,
                CommandView::SendPayload {
                    link_id,
                    payload: match front.packed_override {
                        Some(bytes) => bytes,
                        None => front.message.packed->Ok_0,
                    },
                    auto_compress: if front.packed_override is Some {
                        front.auto_compress
                    } else {
                        front.message.auto_compress
                    },
                    deadline: session.timeout,
                    identify_before_send: false,
                    result_tx: sessions_seen[i].result_tx,
                },
            )
        }),
{
    assert(session_coherent(state.direct_links, state.sessions[i]));
    round_sends_what_is_to_be_sent(state, starts_seen, ages, sessions_seen, i);
}

/// A message that was sent in a round and has no answer yet is under way after it, with
/// the channel for its answer and those behind it still waiting.
pub proof fn sent_message_is_under_way(
    state: ManagerState,
    starts_seen: Seq<StartObservation>,
    ages: Seq<u128>,
    sessions_seen: Seq<SessionObservation>,
    i: int,
)
    requires
        state.coherent(),
        state.saw(starts_seen, ages, sessions_seen),
        0 <= i < state.sessions.len(),
        state.sessions[i].1.has_something_to_send(),
        state.sessions[i].1.front_is_sendable(),
        sessions_seen[i].found is Empty,
        sessions_seen[i].elapsed <= state.sessions[i].1.timeout,
    ensures
        ({
            let (link_id, session) = state.sessions[i];
            let front = session.at_the_front();
            let after = state.tick(starts_seen, ages, sessions_seen).state;
            &&& value_of(after.sessions, link_id) matches Some(left)
            &&& left == (SessionView {
                state: DeliveryState::Transferring,
                message: session.front_message(),
                packed_override: front.packed_override,
                auto_compress: front.auto_compress,
                msg_hash: front.msg_hash,
                queue: session.behind_the_front(),
                runtime_result: Some(sessions_seen[i].receiver),
                started_at: sessions_seen[i].launched,
                failure_reason: if session.state is Idle {
                    None
                } else {
                    session.failure_reason
                },
                ..session
            })
        }),
{
    round_leaves_what_goes_on(state, starts_seen, ages, sessions_seen, i);
    let session = state.sessions[i].1;
    assert(session.behind_the_front() =~= left_of(state.sessions[i], sessions_seen[i])->0.queue);
}

/// A message whose turn it is and that cannot go out is noted as failed, with the reason.
/// It ends when its time is up.
pub proof fn unsendable_message_is_noted_as_failed(
    state: ManagerState,
    starts_seen: Seq<StartObservation>,
    ages: Seq<u128>,
    sessions_seen: Seq<SessionObservation>,
    i: int,
)
    requires
        state.coherent(),
        state.saw(starts_seen, ages, sessions_seen),
        0 <= i < state.sessions.len(),
        state.sessions[i].1.has_something_to_send(),
        !state.sessions[i].1.front_is_sendable(),
        sessions_seen[i].elapsed <= state.sessions[i].1.timeout,
    ensures
        ({
            let (link_id, session) = state.sessions[i];
            let front = session.at_the_front();
            let after = state.tick(starts_seen, ages, sessions_seen).state;
            &&& value_of(after.sessions, link_id) matches Some(left)
            &&& left == (SessionView {
                state: DeliveryState::Failed,
                message: front.message,
                packed_override: None,
                auto_compress: front.auto_compress,
                msg_hash: front.msg_hash,
                queue: session.behind_the_front(),
                started_at: if session.state is Idle {
                    sessions_seen[i].started
                } else {
                    session.started_at
                },
                failure_reason: Some(
                    "failed to pack LXMF payload: "@ + front.message.packed->Err_0.debug,
                ),
                ..session
            })
        }),
{
    assert(session_coherent(state.direct_links, state.sessions[i]));
    assert(state.sessions[i].1.saw(sessions_seen[i]));
    round_leaves_what_goes_on(state, starts_seen, ages, sessions_seen, i);
    let session = state.sessions[i].1;
    assert(session.behind_the_front() =~= left_of(state.sessions[i], sessions_seen[i])->0.queue);
}

/// A link that has nothing to send, got no answer and whose delivery has time left, or
/// that is idle however long, is left as it is.
pub proof fn quiet_link_is_left_alone(
    state: ManagerState,
    starts_seen: Seq<StartObservation>,
    ages: Seq<u128>,
    sessions_seen: Seq<SessionObservation>,
    i: int,
)
    requires
        unique_keys(state.sessions),
        sessions_seen.len() == state.sessions.len(),
        0 <= i < state.sessions.len(),
        !state.sessions[i].1.has_something_to_send(),
        sessions_seen[i].found is Empty,
        state.sessions[i].1.state is Idle || sessions_seen[i].elapsed
            <= state.sessions[i].1.timeout,
    ensures
        value_of(
            state.tick(starts_seen, ages, sessions_seen).state.sessions,
            state.sessions[i].0,
        ) == Some(state.sessions[i].1),
{
    round_leaves_what_goes_on(state, starts_seen, ages, sessions_seen, i);
}

/// A delivery that was answered with a receipt is complete, and that is told. A reusable
/// link is idle afterwards, for those that wait, since the time of the answer; any other
/// link is closed and forgotten.
pub proof fn answered_delivery_is_complete(
    state: ManagerState,
    starts_seen: Seq<StartObservation>,
    ages: Seq<u128>,
    sessions_seen: Seq<SessionObservation>,
    i: int,
)
    requires
        state.coherent(),
        state.saw(starts_seen, ages, sessions_seen),
        0 <= i < state.sessions.len(),
        sessions_seen[i].found matches Poll::Ready(Ok(_)),
    ensures
        ({
            let (link_id, session) = state.sessions[i];
            let front = session.at_the_front();
            let representation = form_of(sessions_seen[i].found->Ready_0->Ok_0);
            let round = state.tick(starts_seen, ages, sessions_seen);
            &&& round.results.contains(
                ResultView::Complete { link_id, msg_hash: front.msg_hash },
            )
            &&& newly_told(
                state,
                round.state,
                told_delivered(state.sessions[i], sessions_seen[i].found->Ready_0->Ok_0),
            )
            &&& if session.reusable {
                &&& round.state.direct_links.contains_key(session.dest_hash)
                &&& round.state.direct_links[session.dest_hash] == link_id
                &&& value_of(round.state.sessions, link_id) matches Some(left)
                &&& left == (SessionView {
                    state: DeliveryState::Idle,
                    link_state: LinkState::Active,
                    message: LxMessageView {
                        progress: Progress { bits: 0x3FF0_0000_0000_0000 },
                        representation,
                        ..front.message
                    },
                    packed_override: front.packed_override,
                    auto_compress: front.auto_compress,
                    msg_hash: front.msg_hash,
                    queue: session.behind_the_front(),
                    runtime_result: None,
                    started_at: sessions_seen[i].now,
                    failure_reason: if session.state is Idle {
                        None
                    } else {
                        session.failure_reason
                    },
                    backchannel_identified: true,
                    ..session
                })
            } else {
                &&& !has_key(round.state.sessions, link_id)
                &&& newly_commanded(state, round.state, CommandView::Close { link_id })
            }
        }),
{
    let (link_id, session) = state.sessions[i];
    let seen = sessions_seen[i];
    let round = state.tick(starts_seen, ages, sessions_seen);
    assert(session_coherent(state.direct_links, state.sessions[i]));
    assert(session.saw(seen));
    round_leaves_what_goes_on(state, starts_seen, ages, sessions_seen, i);
    lemma_session_part(state, starts_seen, ages, sessions_seen, i);
    let settled = settled_in(state.sessions[i], seen);
    assert(settled.session.queue =~= session.behind_the_front());
    assert(round.results.contains(settled.results[0]));
    assert(newly_told(state, round.state, settled.events[0]));
    if session.reusable {
        round_keeps_coherence(state, starts_seen, ages, sessions_seen);
        lemma_key_index(round.state.sessions, link_id);
        let k = key_index(round.state.sessions, link_id)->0;
        assert(session_coherent(round.state.direct_links, round.state.sessions[k]));
    }
}

/// A delivery that was answered with an error, that will never be answered or whose time
/// is up fails with that reason, and so does every message that waits behind it: each is
/// handed back as itself, and each is told of. The link is closed and forgotten.
pub proof fn failed_delivery_is_handed_back(
    state: ManagerState,
    starts_seen: Seq<StartObservation>,
    ages: Seq<u128>,
    sessions_seen: Seq<SessionObservation>,
    i: int,
    k: int,
)
    requires
        state.coherent(),
        state.saw(starts_seen, ages, sessions_seen),
        0 <= i < state.sessions.len(),
        why_it_fails(state.sessions[i].1, sessions_seen[i]) is Some,
    ensures
        ({
            let (link_id, session) = state.sessions[i];
            let seen = sessions_seen[i];
            let reason = why_it_fails(session, seen)->0;
            let front = session.at_the_front();
            let message = session.front_message();
            let round = state.tick(starts_seen, ages, sessions_seen);
            &&& round.results.contains(
                ResultView::Failed {
                    link_id,
                    msg_hash: front.msg_hash,
                    dest_hash: session.dest_hash,
                    message,
                    reason,
                },
            )
            &&& newly_told(
                state,
                round.state,
                told_failed(state.sessions[i], seen, reason),
            )
            &&& 0 <= k < session.behind_the_front().len() ==> {
                let waiting = session.behind_the_front()[k];
                &&& round.results.contains(
                    ResultView::Failed {
                        link_id,
                        msg_hash: waiting.msg_hash,
                        dest_hash: session.dest_hash,
                        message: waiting.message,
                        reason,
                    },
                )
                &&& newly_told(
                    state,
                    round.state,
                    told_waiting(link_id, session.dest_hash, waiting, reason),
                )
            }
            &&& !has_key(round.state.sessions, link_id)
            &&& newly_commanded(state, round.state, CommandView::Close { link_id })
            &&& session.reusable ==> !round.state.direct_links.contains_key(session.dest_hash)
        }),
{
    let (link_id, session) = state.sessions[i];
    let seen = sessions_seen[i];
    let reason = why_it_fails(session, seen)->0;
    let round = state.tick(starts_seen, ages, sessions_seen);
    assert(session_coherent(state.direct_links, state.sessions[i]));
    assert(session.saw(seen));
    round_leaves_what_goes_on(state, starts_seen, ages, sessions_seen, i);
    lemma_session_part(state, starts_seen, ages, sessions_seen, i);
    let settled = settled_in(state.sessions[i], seen);
    let current = session.launch_waiting(seen).session;
    assert(current.queue =~= session.behind_the_front());
    assert(round.results.contains(settled.results[0]));
    assert(newly_told(state, round.state, settled.events[0]));
    if 0 <= k < session.behind_the_front().len() {
        assert(round.results.contains(settled.results[k + 1]));
        assert(newly_told(state, round.state, settled.events[k + 1]));
        assert(settled.results[k + 1] == current.queue[k].failed_result(
            link_id,
            session.dest_hash,
            reason,
        ));
        assert(settled.events[k + 1] == current.queue[k].failed_event(
            link_id,
            session.dest_hash,
            reason,
        ));
    }
    if session.reusable && round.state.direct_links.contains_key(session.dest_hash) {
        round_keeps_coherence(state, starts_seen, ages, sessions_seen);
        let other = round.state.direct_links[session.dest_hash];
        assert(cache_entry_coherent(round.state.sessions, session.dest_hash, other));
        let m = choose|m: int|
            {
                &&& 0 <= m < round.state.sessions.len()
                &&& (#[trigger] round.state.sessions[m]).0 == other
                &&& round.state.sessions[m].1.reusable
                &&& round.state.sessions[m].1.dest_hash == session.dest_hash
            };
        lemma_key_index(round.state.sessions, other);
        round_opens_no_link(state, starts_seen, ages, sessions_seen, other);
        lemma_key_index(state.sessions, other);
        let j = key_index(state.sessions, other)->0;
        round_leaves_what_goes_on(state, starts_seen, ages, sessions_seen, j);
        let at = key_index(round.state.sessions, other)->0;
        assert(round.state.sessions[at].0 == round.state.sessions[m].0);
        assert(at == m);
        assert(session_coherent(state.direct_links, state.sessions[j]));
    }
}

/// The event that tells that a message failed while it waited for its link.
pub open spec fn told_waiting(
    link_id: [u8; 16],
    dest_hash: [u8; 16],
    waiting: QueuedView,
    reason: Seq<char>,
) -> EventView {
    EventView {
        kind: LxmfDeliveryEventKind::Failed,
        method: LxmfDeliveryEventMethod::Direct,
        link_id,
        dest_hash,
        msg_hash: waiting.msg_hash,
        attempts: waiting.message.delivery_attempts,
        progress: Some(waiting.message.progress),
        representation: waiting.message.representation,
        link_state: LinkState::Closed,
        delivery_state: DeliveryState::Failed,
        queued_deliveries: 0,
        in_flight_deliveries: 0,
        reason: Some(reason),
    }
}

} // verus!
