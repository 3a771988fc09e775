//! The connection session as a state machine. The two I/O loops of a
//! connection report what happened as events; the session answers each with
//! the one action to perform.
use vstd::prelude::*;
use crate::text::{
    chat_line, chat_text, frame_line, framed, is_own_line, join_line, join_text, leave_line,
    leave_text, own_text, stripped,
};

verus! {

/// Where a session stands in its lifetime.
#[derive(PartialEq, Eq, Structural, Clone, Copy, Debug)]
pub enum SessionState {
    /// Accepted, subscribed, not yet announced.
    Joining,
    /// Announced; both loops run.
    Active,
    /// One loop ended; the other is being stopped.
    Closing,
    /// Left: the leave announcement went out and the connection is released.
    Closed,
}

/// What one of the session's loops reports.
#[derive(Debug, PartialEq, Eq)]
pub enum SessionEvent {
    /// The subscription is taken: the session may announce itself.
    Begin,
    /// The ingress loop read a line, delimiter included if it had one.
    LineRead(String),
    /// The client closed its side of the connection.
    EndOfStream,
    /// Reading from the connection failed.
    ReadFailed,
    /// The egress loop received a line from the bus. Lines that the session
    /// published itself are not written back to its client.
    Incoming(String),
    /// The egress loop was told it skipped this many lines.
    Lagged(u64),
    /// The bus is closed.
    BusClosed,
    /// Writing to the connection failed.
    WriteFailed,
    /// Both loops have stopped.
    Stopped,
}

/// What the session asks its loops to do.
#[derive(Debug, PartialEq, Eq)]
pub enum SessionAction {
    /// Publish this line on the bus.
    Publish(String),
    /// Write these bytes, delimiter included, to the connection.
    Write(String),
    /// Log that this many lines were skipped; the client is not told.
    NoteLag(u64),
    /// Stop the loop that is still running.
    Shutdown,
    /// Publish this leave announcement, then release the connection and the
    /// subscription.
    Leave(String),
    /// Nothing to do.
    Nothing,
}

/// An event, abstractly.
pub enum EventView {
    Begin,
    LineRead(Seq<char>),
    EndOfStream,
    ReadFailed,
    Incoming(Seq<char>),
    Lagged(nat),
    BusClosed,
    WriteFailed,
    Stopped,
}

/// An action, abstractly.
pub enum ActionView {
    Publish(Seq<char>),
    Write(Seq<char>),
    NoteLag(nat),
    Shutdown,
    Leave(Seq<char>),
    Nothing,
}

impl View for SessionEvent {
    type V = EventView;

    open spec fn view(&self) -> EventView {
        match self {
            SessionEvent::Begin => EventView::Begin,
            SessionEvent::LineRead(s) => EventView::LineRead(s@),
            SessionEvent::EndOfStream => EventView::EndOfStream,
            SessionEvent::ReadFailed => EventView::ReadFailed,
            SessionEvent::Incoming(s) => EventView::Incoming(s@),
            SessionEvent::Lagged(n) => EventView::Lagged(*n as nat),
            SessionEvent::BusClosed => EventView::BusClosed,
            SessionEvent::WriteFailed => EventView::WriteFailed,
            SessionEvent::Stopped => EventView::Stopped,
        }
    }
}

impl View for SessionAction {
    type V = ActionView;

    open spec fn view(&self) -> ActionView {
        match self {
            SessionAction::Publish(s) => ActionView::Publish(s@),
            SessionAction::Write(s) => ActionView::Write(s@),
            SessionAction::NoteLag(n) => ActionView::NoteLag(*n as nat),
            SessionAction::Shutdown => ActionView::Shutdown,
            SessionAction::Leave(s) => ActionView::Leave(s@),
            SessionAction::Nothing => ActionView::Nothing,
        }
    }
}

/// One transition of the session of client `id`.
pub open spec fn session_step(id: nat, s: SessionState, e: EventView) -> (SessionState, ActionView) {
    match s {
        SessionState::Joining => match e {
            EventView::Begin => (SessionState::Active, ActionView::Publish(join_text(id))),
            _ => (s, ActionView::Nothing),
        },
        SessionState::Active => match e {
            EventView::LineRead(raw) => (
                SessionState::Active,
                ActionView::Publish(chat_text(id, stripped(raw))),
            ),
            EventView::Incoming(m) => if own_text(id, m) {
                (SessionState::Active, ActionView::Nothing)
            } else {
                (SessionState::Active, ActionView::Write(framed(m)))
            },
            EventView::Lagged(n) => (SessionState::Active, ActionView::NoteLag(n)),
            EventView::EndOfStream | EventView::ReadFailed | EventView::BusClosed
            | EventView::WriteFailed => (SessionState::Closing, ActionView::Shutdown),
            EventView::Stopped => (SessionState::Closed, ActionView::Leave(leave_text(id))),
            EventView::Begin => (s, ActionView::Nothing),
        },
        SessionState::Closing => match e {
            EventView::Stopped => (SessionState::Closed, ActionView::Leave(leave_text(id))),
            _ => (s, ActionView::Nothing),
        },
        SessionState::Closed => (s, ActionView::Nothing),
    }
}

/// The session of one connection.
pub struct Session {
    id: u64,
    state: SessionState,
}

/// A session, abstractly: its client's identity and its state.
pub struct SessionView {
    pub id: nat,
    pub state: SessionState,
}

impl View for Session {
    type V = SessionView;

    closed spec fn view(&self) -> SessionView {
        SessionView { id: self.id as nat, state: self.state }
    }
}

impl Session {
    /// A new session for client `id`, not yet announced.
    pub fn new(id: u64) -> (r: Session)
        ensures
            r@ == (SessionView { id: id as nat, state: SessionState::Joining }),
    {
        Session { id, state: SessionState::Joining }
    }

    /// The identity of the session's client.
    pub fn id(&self) -> (r: u64)
        ensures
            r as nat == self@.id,
    {
        self.id
    }

    /// Where the session stands.
    pub fn state(&self) -> (r: SessionState)
        ensures
            r == self@.state,
    {
        self.state
    }

    /// Takes one event and returns the action it calls for. The session
    /// announces itself on `Begin`, turns each line read into a chat line,
    /// hands each incoming line of another client to the writer, starts closing on the first
    /// end or failure of either loop, and announces its leave once when both
    /// loops have stopped. After that it does nothing.
    pub fn step(&mut self, event: SessionEvent) -> (a: SessionAction)
        ensures
            final(self)@.id == old(self)@.id,
            (final(self)@.state, a@) == session_step(old(self)@.id, old(self)@.state, event@),
    {
        match self.state {
            SessionState::Joining => match event {
                SessionEvent::Begin => {
                    self.state = SessionState::Active;
                    SessionAction::Publish(join_line(self.id))
                },
                _ => SessionAction::Nothing,
            },
            SessionState::Active => match event {
                SessionEvent::LineRead(raw) => SessionAction::Publish(
                    chat_line(self.id, raw.as_str()),
                ),
                SessionEvent::Incoming(m) => if is_own_line(self.id, m.as_str()) {
                    SessionAction::Nothing
                } else {
                    SessionAction::Write(frame_line(m.as_str()))
                },
                SessionEvent::Lagged(n) => SessionAction::NoteLag(n),
                SessionEvent::EndOfStream | SessionEvent::ReadFailed | SessionEvent::BusClosed
                | SessionEvent::WriteFailed => {
                    self.state = SessionState::Closing;
                    SessionAction::Shutdown
                },
                SessionEvent::Stopped => {
                    self.state = SessionState::Closed;
                    SessionAction::Leave(leave_line(self.id))
                },
                SessionEvent::Begin => SessionAction::Nothing,
            },
            SessionState::Closing => match event {
                SessionEvent::Stopped => {
                    self.state = SessionState::Closed;
                    SessionAction::Leave(leave_line(self.id))
                },
                _ => SessionAction::Nothing,
            },
            SessionState::Closed => SessionAction::Nothing,
        }
    }
}

/// The state and the actions of the session of client `id` after a trace of
/// events, from its start.
pub open spec fn session_run(id: nat, events: Seq<EventView>) -> (SessionState, Seq<ActionView>)
    decreases events.len(),
{
    if events.len() == 0 {
        (SessionState::Joining, Seq::empty())
    } else {
        let (s, acts) = session_run(id, events.drop_last());
        let (s2, a) = session_step(id, s, events.last());
        (s2, acts.push(a))
    }
}

/// The number of leave announcements among some actions.
pub open spec fn leaves(acts: Seq<ActionView>) -> nat
    decreases acts.len(),
{
    if acts.len() == 0 {
        0
    } else {
        leaves(acts.drop_last()) + if acts.last() is Leave {
            1nat
        } else {
            0nat
        }
    }
}

/// What holds after every trace: one action per event; one leave
/// announcement once closed and none before; nothing at all after it; and
/// nothing before the join announcement, which is there once joined.
pub proof fn lemma_session_trace(id: nat, events: Seq<EventView>)
    ensures
        ({
            let (s, acts) = session_run(id, events);
            &&& acts.len() == events.len()
            &&& leaves(acts) == if s == SessionState::Closed {
                1nat
            } else {
                0nat
            }
            &&& s != SessionState::Closed ==> forall|i: int|
                0 <= i < acts.len() ==> !(#[trigger] acts[i] is Leave)
            &&& forall|i: int, j: int|
                0 <= i < j < acts.len() && #[trigger] acts[i] is Leave ==> #[trigger] acts[j] is Nothing
            &&& s == SessionState::Joining ==> forall|i: int|
                0 <= i < acts.len() ==> #[trigger] acts[i] is Nothing
            &&& s != SessionState::Joining ==> acts.contains(ActionView::Publish(join_text(id)))
        }),
    decreases events.len(),
{
    if events.len() > 0 {
        let prefix = events.drop_last();
        lemma_session_trace(id, prefix);
        let (s1, acts1) = session_run(id, prefix);
        let (s, acts) = session_run(id, events);
        let a = session_step(id, s1, events.last()).1;
        assert(acts == acts1.push(a));
        assert(acts.drop_last() =~= acts1);
        assert forall|i: int| 0 <= i < acts1.len() implies acts[i] == acts1[i] by {}
        if s1 != SessionState::Joining {
            let b = choose|b: int| 0 <= b < acts1.len() && acts1[b] == ActionView::Publish(join_text(id));
            assert(acts[b] == ActionView::Publish(join_text(id)));
        } else if s != SessionState::Joining {
            assert(acts[acts.len() - 1] == ActionView::Publish(join_text(id)));
        }
    }
}

/// Every action that a session asks for comes at or after its join
/// announcement: nothing it publishes reaches the bus before it.
pub proof fn lemma_join_first(id: nat, events: Seq<EventView>)
    ensures
        forall|j: int|
            0 <= j < session_run(id, events).1.len() && !(#[trigger] session_run(id, events).1[j] is Nothing)
                ==> session_run(id, events).1.take(j + 1).contains(
                ActionView::Publish(join_text(id)),
            ),
    decreases events.len(),
{
    if events.len() > 0 {
        let prefix = events.drop_last();
        lemma_join_first(id, prefix);
        lemma_session_trace(id, prefix);
        let (s1, acts1) = session_run(id, prefix);
        let (s, acts) = session_run(id, events);
        let join = ActionView::Publish(join_text(id));
        assert forall|j: int| 0 <= j < acts.len() && !(#[trigger] acts[j] is Nothing) implies acts.take(
            j + 1,
        ).contains(join) by {
            if j < acts1.len() {
                assert(acts.take(j + 1) =~= acts1.take(j + 1));
            } else if s1 == SessionState::Joining {
                assert(acts.take(j + 1)[j] == join);
            } else {
                let b = choose|b: int| 0 <= b < acts1.len() && acts1[b] == join;
                assert(acts.take(j + 1)[b] == join);
            }
        }
    }
}

/// Events that come after a trace leave the actions of that trace as they
/// were, and a closed session stays closed.
pub proof fn lemma_extend(id: nat, events: Seq<EventView>, after: Seq<EventView>)
    ensures
        session_run(id, events + after).1.take(events.len() as int) == session_run(id, events).1,
        session_run(id, events).0 == SessionState::Closed ==> session_run(id, events + after).0
            == SessionState::Closed,
    decreases after.len(),
{
    lemma_session_trace(id, events);
    lemma_session_trace(id, events + after);
    if after.len() == 0 {
        assert(events + after =~= events);
        assert(session_run(id, events).1.take(events.len() as int) =~= session_run(id, events).1);
    } else {
        let rest = after.drop_last();
        lemma_extend(id, events, rest);
        lemma_session_trace(id, events + rest);
        assert((events + after).drop_last() =~= events + rest);
        let acts1 = session_run(id, events + rest).1;
        let acts = session_run(id, events + after).1;
        assert(acts.take(events.len() as int) =~= acts1.take(events.len() as int));
    }
}

/// A session whose client closed the connection, or whose read failed,
/// publishes exactly one leave announcement, once both loops have stopped,
/// and nothing after it, whatever its loops still report.
pub proof fn lemma_read_end_leaves_once(
    id: nat,
    before: Seq<EventView>,
    e: EventView,
    after: Seq<EventView>,
)
    requires
        session_run(id, before).0 == SessionState::Active,
        e is EndOfStream || e is ReadFailed,
    ensures
        ({
            let t = before.push(e).push(EventView::Stopped) + after;
            let (s, acts) = session_run(id, t);
            let k = before.len() + 1int;
            &&& s == SessionState::Closed
            &&& leaves(acts) == 1
            &&& acts[k] == ActionView::Leave(leave_text(id))
            &&& forall|j: int| k < j < acts.len() ==> #[trigger] acts[j] is Nothing
        }),
{
    let ended = before.push(e).push(EventView::Stopped);
    let t = ended + after;
    let k = before.len() + 1int;
    assert(ended.drop_last() =~= before.push(e));
    assert(before.push(e).drop_last() =~= before);
    lemma_extend(id, ended, after);
    lemma_session_trace(id, ended);
    lemma_session_trace(id, t);
    let acts = session_run(id, t).1;
    assert(session_run(id, before.push(e)).0 == SessionState::Closing);
    assert(session_run(id, ended).0 == SessionState::Closed);
    assert(session_run(id, ended).1[k] == ActionView::Leave(leave_text(id)));
    assert(acts[k] == acts.take(ended.len() as int)[k]);
    assert(acts[k] is Leave);
    assert forall|j: int| k < j < acts.len() implies #[trigger] acts[j] is Nothing by {
        assert(acts[k] is Leave);
    }
}

} // verus!
