//! How a message joins a link that is there already, and how a link is given up that was
//! idle for too long.

use std::time::Instant;
use vstd::prelude::*;

use crate::clock::elapsed_read;
use crate::commands::CommandView;
use crate::keyed::{
    has_key, lemma_key_index, lemma_value_with_entry, lemma_value_without_key, unique_keys,
    value_of,
};
use crate::message::LxMessageView;
use crate::model::{DirectLinkStartKind, ManagerState};
use crate::queue::QueuedView;
use crate::session::SessionView;
use crate::types::{DeliveryState, Progress};

verus! {

/// Whether a link is given up after so long: it is established, nothing is under way on
/// it or waits for it, and that for more than ten minutes.
pub open spec fn is_worn_out(session: SessionView, idle: u128) -> bool {
    &&& session.state is Idle
    &&& session.queue.len() == 0
    &&& session.link_state is Active
    &&& idle > 600_000_000_000
}

/// A message to a destination joins the link that is kept for it, unless that is worn out.
pub proof fn kept_link_takes_messages_until_worn_out(
    state: ManagerState,
    dest_hash: [u8; 16],
    idle: u128,
)
    ensures
        state.attachable(dest_hash, idle) <==> {
            &&& state.direct_links.contains_key(dest_hash)
            &&& value_of(state.sessions, state.direct_links[dest_hash]) matches Some(session)
            &&& session.reusable
            &&& !is_worn_out(session, idle)
        },
{
}

/// How long the kept link to a destination has been idle is read off the clock, from the
/// time at which its last delivery ended.
pub proof fn idleness_is_read_off_the_clock(
    state: ManagerState,
    dest_hash: [u8; 16],
    idle: u128,
)
    requires
        state.idle_read(dest_hash, idle),
        state.direct_links.contains_key(dest_hash),
        has_key(state.sessions, state.direct_links[dest_hash]),
    ensures
        elapsed_read(value_of(state.sessions, state.direct_links[dest_hash])->0.started_at, idle),
{
}

/// A message that joins a link waits behind all others, with its own hash and to go out in
/// its own wire form. Where the link is free, the message that has waited longest gets its
/// turn. The report and the event name the link and the destination, and say whether the
/// link accepted the message at once and how the link stands afterwards. Nothing else
/// changes, no other link either.
pub proof fn joining_message_waits_its_turn(
    state: ManagerState,
    message: LxMessageView,
    dest_hash: [u8; 16],
    now: Instant,
    other: [u8; 16],
)
    requires
        unique_keys(state.sessions),
        state.direct_links.contains_key(dest_hash),
        has_key(state.sessions, state.direct_links[dest_hash]),
    ensures
        ({
            let link_id = state.direct_links[dest_hash];
            let session = value_of(state.sessions, link_id)->0;
            let own = QueuedView {
                message,
                packed_override: None,
                auto_compress: true,
                msg_hash: message.hash,
            };
            let free = session.state is Idle && session.link_state is Active;
            let at_once = free && session.queue.len() == 0;
            let first = if session.queue.len() == 0 {
                own
            } else {
                session.queue[0]
            };
            let after = state.attached(message, dest_hash, now);
            let joined = value_of(after.sessions, link_id)->0;
            let report = state.attached_report(message, dest_hash, now);
            let event = after.events.last();
            &&& has_key(after.sessions, link_id)
            &&& joined == if free {
                SessionView {
                    state: DeliveryState::Identifying,
                    message: first.message,
                    packed_override: first.packed_override,
                    auto_compress: first.auto_compress,
                    msg_hash: first.msg_hash,
                    started_at: now,
                    failure_reason: None,
                    queue: if at_once {
                        Seq::empty()
                    } else {
                        session.queue.skip(1).push(own)
                    },
                    ..session
                }
            } else {
                SessionView { queue: session.queue.push(own), ..session }
            }
            &&& other != link_id ==> value_of(after.sessions, other) == value_of(
                state.sessions,
                other,
            )
            &&& report.link_id == link_id
            &&& report.dest_hash == dest_hash
            &&& report.kind == if at_once {
                DirectLinkStartKind::ReusedActiveDirect
            } else {
                DirectLinkStartKind::QueuedOnDirect
            }
            &&& report.link_state == session.link_state
            &&& report.delivery_state == joined.state
            &&& report.queued_deliveries == joined.queue.len()
            &&& report.in_flight_deliveries == if joined.state is Idle {
                0nat
            } else {
                1
            }
            &&& after.events.drop_last() == state.events
            &&& after.events.len() == state.events.len() + 1
            &&& at_once ==> event.kind is DirectLinkReused
            &&& !at_once ==> event.kind is DirectLinkPending
            &&& event.method is Direct
            &&& event.link_id == link_id
            &&& event.dest_hash == dest_hash
            &&& event.msg_hash == message.hash
            &&& event.attempts == message.delivery_attempts
            &&& event.progress == Some(
                Progress {
                    bits: if session.link_state is Active {
                        0x3FA9_9999_9999_999A
                    } else {
                        0x3F9E_B851_EB85_1EB8
                    },
                },
            )
            &&& event.representation is Unknown
            &&& event.link_state == report.link_state
            &&& event.delivery_state == report.delivery_state
            &&& event.queued_deliveries == report.queued_deliveries
            &&& event.in_flight_deliveries == report.in_flight_deliveries
            &&& event.reason is None
            &&& after == (ManagerState { sessions: after.sessions, events: after.events, ..state })
        }),
{
    let link_id = state.direct_links[dest_hash];
    let session = value_of(state.sessions, link_id)->0;
    let joined = session.attach(message, now);
    let after = state.attached(message, dest_hash, now);
    lemma_key_index(state.sessions, link_id);
    lemma_value_with_entry(state.sessions, link_id, joined, link_id);
    lemma_value_with_entry(state.sessions, link_id, joined, other);
    assert(after.events.drop_last() =~= state.events);
    let own = session.enqueue(message, None, true).queue.last();
    if session.state is Idle && session.link_state is Active {
        if session.queue.len() == 0 {
            assert(joined.queue =~= Seq::empty());
        } else {
            assert(joined.queue =~= session.queue.skip(1).push(own));
        }
    }
}

/// A link that is worn out is closed and its transport destination forgotten when the next
/// message comes, and its destination has no link then; no other link is touched. Without
/// a kept link nothing changes.
pub proof fn worn_out_link_is_given_up(
    state: ManagerState,
    dest_hash: [u8; 16],
    idle: u128,
    other: [u8; 16],
)
    requires
        unique_keys(state.sessions),
    ensures
        ({
            let after = state.released(dest_hash, idle);
            let link_id = state.direct_links[dest_hash];
            &&& !state.direct_links.contains_key(dest_hash) ==> after == state
            &&& !after.direct_links.contains_key(dest_hash)
            &&& after.direct_links == state.direct_links.remove(dest_hash)
            &&& state.direct_links.contains_key(dest_hash) && (value_of(
                state.sessions,
                link_id,
            ) matches Some(session) && session.reusable && is_worn_out(session, idle)) ==> {
                &&& !has_key(after.sessions, link_id)
                &&& other != link_id ==> value_of(after.sessions, other) == value_of(
                    state.sessions,
                    other,
                )
                &&& after.commands == state.commands + seq![
                    CommandView::Close { link_id },
                    CommandView::DeregisterDestination { link_id },
                ]
            }
            &&& !(value_of(state.sessions, link_id) matches Some(session) && session.reusable
                && is_worn_out(session, idle)) ==> after.sessions == state.sessions
                && after.commands == state.commands
            &&& after == (ManagerState {
                sessions: after.sessions,
                direct_links: after.direct_links,
                commands: after.commands,
                ..state
            })
        }),
{
    let after = state.released(dest_hash, idle);
    let link_id = state.direct_links[dest_hash];
    lemma_value_without_key(state.sessions, link_id, link_id);
    lemma_value_without_key(state.sessions, link_id, other);
    assert(after.direct_links =~= state.direct_links.remove(dest_hash));
    if state.direct_links.contains_key(dest_hash) && (value_of(state.sessions, link_id) matches Some(
        session,
    ) && session.reusable && is_worn_out(session, idle)) {
        assert(after.commands =~= state.commands + seq![
            CommandView::Close { link_id },
            CommandView::DeregisterDestination { link_id },
        ]);
    }
}

} // verus!
