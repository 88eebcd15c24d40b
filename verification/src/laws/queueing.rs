//! Messages that share a link are served in the order in which they came.

use std::time::Instant;
use vstd::prelude::*;

use super::rounds::{
    left_of, round_keeps_coherence, round_leaves_what_goes_on, round_opens_no_link, settled_in,
};
use crate::commands::CommandView;
use crate::events::ResultView;
use crate::keyed::{has_key, key_index, lemma_key_index, value_of};
use crate::message::{LxMessageView, MessageErrorView};
use crate::model::{
    session_coherent, ManagerState, SessionObservation, StartObservation,
};
use crate::queue::QueuedView;
use crate::session::{answer_in, SessionView};
use crate::types::{DeliveryRepresentation, Progress};

verus! {

/// What a message is, whatever has become of it on the way: all of it but how far it has
/// come and in which form.
pub open spec fn letter(message: LxMessageView) -> LxMessageView {
    LxMessageView {
        progress: Progress { bits: 0 },
        representation: DeliveryRepresentation::Unknown,
        ..message
    }
}

/// A message in the line for a link: its hash, what goes over the link for it, and the
/// message itself.
pub type Place = (Option<[u8; 32]>, Result<Seq<u8>, MessageErrorView>, LxMessageView);

impl QueuedView {
    /// The place of a waiting message in the line.
    pub open spec fn place(self) -> Place {
        (
            self.msg_hash,
            match self.packed_override {
                Some(bytes) => Ok(bytes),
                None => self.message.packed,
            },
            letter(self.message),
        )
    }
}

/// The places of the messages that wait.
pub open spec fn waiting_line(queue: Seq<QueuedView>) -> Seq<Place> {
    queue.map_values(|queued: QueuedView| queued.place())
}

impl SessionView {
    /// The messages of a session that are not delivered: the one under way, unless the
    /// link is idle, and those that wait behind it.
    pub open spec fn line(self) -> Seq<Place> {
        if self.state is Idle {
            waiting_line(self.queue)
        } else {
            seq![(self.msg_hash, self.payload(), letter(self.message))] + waiting_line(self.queue)
        }
    }
}

/// Making the longest waiting message the current one of an idle link leaves the line.
proof fn lemma_start_keeps_line(session: SessionView, now: Instant)
    requires
        session.state is Idle,
        session.queue.len() > 0,
    ensures
        session.start_queued(now).line() == session.line(),
{
    let after = session.start_queued(now);
    assert(after.line() =~= session.line());
}

/// A message that a link takes joins the end of the line, as itself.
pub proof fn message_joins_the_end_of_the_line(
    session: SessionView,
    message: LxMessageView,
    now: Instant,
)
    ensures
        session.attach(message, now).line() == session.line().push(
            (message.hash, message.packed, letter(message)),
        ),
{
    let waiting = session.enqueue(message, None, true);
    assert(waiting.line() =~= session.line().push(
        (message.hash, message.packed, letter(message)),
    ));
    if session.state is Idle && session.link_state is Active {
        lemma_start_keeps_line(waiting, now);
    }
}

/// What a session sends is the front of its line, over its own link, and sending it
/// leaves the line.
pub proof fn front_of_the_line_is_sent(session: SessionView, seen: SessionObservation)
    ensures
        session.launch_waiting(seen).session.line() == session.line(),
        session.launch_waiting(seen).commands.len() <= 1,
        session.launch_waiting(seen).commands.len() == 1 ==> {
            &&& session.line().len() > 0
            &&& session.launch_waiting(seen).commands[0] matches CommandView::SendPayload {
                link_id,
                payload,
                ..
            }
            &&& link_id == session.link_id
            &&& Ok::<Seq<u8>, MessageErrorView>(payload) == session.line()[0].1
        },
{
    if let Some(current) = session.to_be_sent(seen.started) {
        if session.state is Idle {
            lemma_start_keeps_line(session, seen.started);
        }
        assert(session.launch_waiting(seen).session.line() =~= current.line());
    }
}

/// The hashes of the messages that were handed out, in order.
pub open spec fn handed(results: Seq<ResultView>) -> Seq<Option<[u8; 32]>> {
    results.map_values(|result: ResultView| result.hash())
}

/// The hashes of the messages of a line, in order.
pub open spec fn hashes(line: Seq<Place>) -> Seq<Option<[u8; 32]>> {
    line.map_values(|place: Place| place.0)
}

/// Whether a result is about a message in the line for a link: it names the link and the
/// message's hash, and where it hands the message back, that is the message itself, to the
/// link's destination.
pub open spec fn hands_over(
    result: ResultView,
    link_id: [u8; 16],
    dest_hash: [u8; 16],
    place: Place,
) -> bool {
    match result {
        ResultView::Complete { link_id: link, msg_hash } => link == link_id && msg_hash == place.0,
        ResultView::Rejected { link_id: link, msg_hash, dest_hash: dest, message, .. } => {
            &&& link == link_id
            &&& msg_hash == place.0
            &&& dest == dest_hash
            &&& letter(message) == place.2
        },
        ResultView::Failed { link_id: link, msg_hash, dest_hash: dest, message, .. } => {
            &&& link == link_id
            &&& msg_hash == place.0
            &&& dest == dest_hash
            &&& letter(message) == place.2
        },
    }
}

/// What a session hands out in its round, followed by the line of what is left of it, is
/// its line: nothing in it is passed over, and what is handed back is what stood there.
pub proof fn line_is_served_from_the_front(
    direct_links: Map<[u8; 16], [u8; 16]>,
    entry: ([u8; 16], SessionView),
    seen: SessionObservation,
)
    requires
        session_coherent(direct_links, entry),
        entry.1.saw(seen),
    ensures
        hashes(entry.1.line()) == handed(settled_in(entry, seen).results) + match left_of(
            entry,
            seen,
        ) {
            Some(left) => hashes(left.line()),
            None => Seq::empty(),
        },
        left_of(entry, seen) matches Some(left) ==> left.line() == entry.1.line().skip(
            settled_in(entry, seen).results.len() as int,
        ),
        forall|j: int|
            0 <= j < settled_in(entry, seen).results.len() ==> hands_over(
                #[trigger] settled_in(entry, seen).results[j],
                entry.0,
                entry.1.dest_hash,
                entry.1.line()[j],
            ),
{
    front_of_the_line_is_sent(entry.1, seen);
    let line = entry.1.line();
    let current = entry.1.launch_waiting(seen).session;
    let settled = settled_in(entry, seen);
    match answer_in(seen.found) {
        Some(Ok(_)) => {
            assert(line[0].0 == current.msg_hash);
            assert(handed(settled.results) =~= seq![current.msg_hash]);
            if current.reusable {
                assert(settled.session.line() =~= line.skip(1));
                assert(hashes(line) =~= seq![line[0].0] + hashes(line.skip(1)));
            } else {
                assert(hashes(line) =~= seq![line[0].0]);
                assert(hashes(line) =~= seq![line[0].0] + Seq::empty());
            }
        },
        Some(Err(_)) => {
            assert(handed(settled.results) =~= hashes(line));
            assert(hashes(line) =~= hashes(line) + Seq::empty());
        },
        None => {
            if settled.keep {
                assert(line.skip(0) =~= line);
                assert(hashes(line) =~= handed(settled.results) + hashes(line));
            } else {
                assert(handed(settled.results) =~= hashes(line));
                assert(hashes(line) =~= hashes(line) + Seq::empty());
            }
        },
    }
}

/// What is seen in one round.
pub struct RoundLook {
    pub starts_seen: Seq<StartObservation>,
    pub ages: Seq<u128>,
    pub sessions_seen: Seq<SessionObservation>,
}

impl ManagerState {
    /// The state after some rounds.
    pub open spec fn after_rounds(self, looks: Seq<RoundLook>) -> Self
        decreases looks.len(),
    {
        if looks.len() == 0 {
            self
        } else {
            let look = looks.last();
            self.after_rounds(looks.drop_last()).tick(
                look.starts_seen,
                look.ages,
                look.sessions_seen,
            ).state
        }
    }

    /// Whether this was seen in some rounds.
    pub open spec fn saw_rounds(self, looks: Seq<RoundLook>) -> bool
        decreases looks.len(),
    {
        if looks.len() == 0 {
            true
        } else {
            let look = looks.last();
            &&& self.saw_rounds(looks.drop_last())
            &&& self.after_rounds(looks.drop_last()).saw(
                look.starts_seen,
                look.ages,
                look.sessions_seen,
            )
        }
    }
}

/// In every round a link is served from the front of its line: as long as it goes on,
/// its line is what it was without some messages at the front, which were handed out.
pub proof fn round_serves_the_line(
    state: ManagerState,
    starts_seen: Seq<StartObservation>,
    ages: Seq<u128>,
    sessions_seen: Seq<SessionObservation>,
    link_id: [u8; 16],
)
    requires
        state.coherent(),
        state.saw(starts_seen, ages, sessions_seen),
        has_key(state.tick(starts_seen, ages, sessions_seen).state.sessions, link_id),
    ensures
        ({
            let after = state.tick(starts_seen, ages, sessions_seen).state;
            let before = value_of(state.sessions, link_id)->0.line();
            exists|n: int|
                0 <= n <= before.len() && value_of(after.sessions, link_id)->0.line()
                    == #[trigger] before.skip(n)
        }),
        has_key(state.sessions, link_id),
{
    round_opens_no_link(state, starts_seen, ages, sessions_seen, link_id);
    lemma_key_index(state.sessions, link_id);
    let i = key_index(state.sessions, link_id)->0;
    round_leaves_what_goes_on(state, starts_seen, ages, sessions_seen, i);
    assert(session_coherent(state.direct_links, state.sessions[i]));
    assert(state.sessions[i].1.saw(sessions_seen[i]));
    line_is_served_from_the_front(state.direct_links, state.sessions[i], sessions_seen[i]);
    let n = settled_in(state.sessions[i], sessions_seen[i]).results.len() as int;
    let before = state.sessions[i].1.line();
    let left = left_of(state.sessions[i], sessions_seen[i])->0;
    let results = settled_in(state.sessions[i], sessions_seen[i]).results;
    assert(hashes(before).len() == handed(results).len() + hashes(left.line()).len());
    assert(0 <= n <= before.len());
    let after = state.tick(starts_seen, ages, sessions_seen).state;
    assert(value_of(after.sessions, link_id) == Some(left));
    assert(value_of(state.sessions, link_id)->0.line() == before);
    assert(left.line() == before.skip(n));
}

/// Over any number of rounds a link serves its messages in the order in which they came:
/// as long as it goes on, its line is what it was without some messages at the front.
pub proof fn rounds_serve_the_line_in_order(
    state: ManagerState,
    looks: Seq<RoundLook>,
    link_id: [u8; 16],
)
    requires
        state.coherent(),
        state.saw_rounds(looks),
        has_key(state.after_rounds(looks).sessions, link_id),
    ensures
        ({
            let before = value_of(state.sessions, link_id)->0.line();
            let after = value_of(state.after_rounds(looks).sessions, link_id)->0.line();
            exists|n: int| 0 <= n <= before.len() && after == #[trigger] before.skip(n)
        }),
        has_key(state.sessions, link_id),
    decreases looks.len(),
{
    let before = value_of(state.sessions, link_id)->0.line();
    if looks.len() == 0 {
        assert(before.skip(0) =~= before);
    } else {
        let look = looks.last();
        let middle = state.after_rounds(looks.drop_last());
        rounds_keep_coherence(state, looks.drop_last());
        round_serves_the_line(
            middle,
            look.starts_seen,
            look.ages,
            look.sessions_seen,
            link_id,
        );
        rounds_serve_the_line_in_order(state, looks.drop_last(), link_id);
        let between = value_of(middle.sessions, link_id)->0.line();
        let after = value_of(state.after_rounds(looks).sessions, link_id)->0.line();
        let m = choose|m: int| 0 <= m <= before.len() && between == #[trigger] before.skip(m);
        let n = choose|n: int| 0 <= n <= between.len() && after == #[trigger] between.skip(n);
        assert(after =~= before.skip(m + n));
    }
}

/// Any number of rounds leaves the state coherent.
pub proof fn rounds_keep_coherence(state: ManagerState, looks: Seq<RoundLook>)
    requires
        state.coherent(),
        state.saw_rounds(looks),
    ensures
        state.after_rounds(looks).coherent(),
    decreases looks.len(),
{
    if looks.len() > 0 {
        let look = looks.last();
        rounds_keep_coherence(state, looks.drop_last());
        round_keeps_coherence(
            state.after_rounds(looks.drop_last()),
            look.starts_seen,
            look.ages,
            look.sessions_seen,
        );
    }
}

} // verus!
