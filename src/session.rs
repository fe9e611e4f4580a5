//! One delivery of a program to a consumer, paced by the consumer's advance
//! messages, and the supervisor that keeps at most one delivery running.
//!
//! A session decides; it does not talk to the transport. Each call returns
//! the action to perform (publish a chunk, stop listening), and the outcome
//! of a publish is handed back through `on_publish_result`.
use vstd::prelude::*;

use crate::cursor::{ChunkCursor, CursorView};
use crate::text::lines_of;

verus! {

#[derive(Clone, Copy, PartialEq, Eq, Structural, Debug)]
pub enum Phase {
    /// A chunk has been handed out; the session waits for the advance token.
    AwaitingAdvance,
    /// The whole program has been delivered.
    Completed,
    /// The session was superseded and reacts to nothing any more.
    Cancelled,
}

/// What the caller has to do after a session call.
#[derive(Debug)]
pub enum Action {
    Nothing,
    /// Publish `payload` on `topic`, then report the outcome.
    Publish { topic: String, payload: String },
    /// The delivery is over: stop listening on the advance topic.
    Stop,
}

pub enum ActionView {
    Nothing,
    Publish { topic: Seq<char>, payload: Seq<char> },
    Stop,
}

impl View for Action {
    type V = ActionView;

    open spec fn view(&self) -> ActionView {
        match self {
            Action::Nothing => ActionView::Nothing,
            Action::Publish { topic, payload } => ActionView::Publish {
                topic: topic@,
                payload: payload@,
            },
            Action::Stop => ActionView::Stop,
        }
    }
}

pub struct SessionView {
    pub cursor: CursorView,
    pub delivery_topic: Seq<char>,
    pub advance_topic: Seq<char>,
    pub advance_token: Seq<char>,
    pub phase: Phase,
    /// A chunk handed out whose publish has not been confirmed yet.
    pub pending: Option<Seq<char>>,
}

impl SessionView {
    pub open spec fn wf(self) -> bool {
        self.cursor.wf()
    }

    /// The next state and the action on an inbound message `msg`: only the
    /// exact advance token, while awaiting, moves the session. An unconfirmed
    /// chunk is published again before the cursor moves on.
    pub open spec fn step(self, msg: Seq<char>) -> (SessionView, ActionView) {
        if self.phase != Phase::AwaitingAdvance || msg != self.advance_token {
            (self, ActionView::Nothing)
        } else if self.pending is Some {
            (self, ActionView::Publish { topic: self.delivery_topic, payload: self.pending->0 })
        } else if self.cursor.is_terminal() {
            (SessionView { phase: Phase::Completed, ..self }, ActionView::Stop)
        } else {
            (
                SessionView {
                    cursor: self.cursor.advanced(),
                    pending: Some(self.cursor.next_chunk()),
                    ..self
                },
                ActionView::Publish {
                    topic: self.delivery_topic,
                    payload: self.cursor.next_chunk(),
                },
            )
        }
    }

    /// The state after the outcome of the last publish is known: a success
    /// clears the unconfirmed chunk, a failure keeps it for a retry.
    pub open spec fn published(self, ok: bool) -> SessionView {
        if ok && self.phase == Phase::AwaitingAdvance {
            SessionView { pending: None, ..self }
        } else {
            self
        }
    }

    pub open spec fn cancelled(self) -> SessionView {
        if self.phase == Phase::AwaitingAdvance {
            SessionView { phase: Phase::Cancelled, ..self }
        } else {
            self
        }
    }

    /// The actions that the messages `msgs`, fed in order, draw from the
    /// session.
    pub open spec fn replay(self, msgs: Seq<Seq<char>>) -> Seq<ActionView>
        decreases msgs.len(),
    {
        if msgs.len() == 0 {
            Seq::empty()
        } else {
            let (next, action) = self.step(msgs[0]);
            seq![action] + next.replay(msgs.skip(1))
        }
    }
}

pub struct Session {
    cursor: ChunkCursor,
    delivery_topic: String,
    advance_topic: String,
    advance_token: String,
    phase: Phase,
    pending: Option<String>,
}

impl View for Session {
    type V = SessionView;

    closed spec fn view(&self) -> SessionView {
        SessionView {
            cursor: self.cursor@,
            delivery_topic: self.delivery_topic@,
            advance_topic: self.advance_topic@,
            advance_token: self.advance_token@,
            phase: self.phase,
            pending: match self.pending {
                Some(p) => Some(p@),
                None => None,
            },
        }
    }
}

impl Session {
    /// Starts the delivery of `program` in chunks of `chunk_size` lines. The
    /// first chunk is handed out at once, to be published on
    /// `delivery_topic`; a program without lines completes at once, with
    /// nothing to publish and nothing to listen to.
    pub fn start(
        program: &str,
        chunk_size: usize,
        delivery_topic: String,
        advance_topic: String,
        advance_token: String,
    ) -> (r: (Session, Action))
        requires
            chunk_size > 0,
        ensures
            r.0@.wf(),
            r.0@.cursor.lines == lines_of(program@),
            r.0@.cursor.chunk_size == chunk_size,
            r.0@.delivery_topic == delivery_topic@,
            r.0@.advance_topic == advance_topic@,
            r.0@.advance_token == advance_token@,
            lines_of(program@).len() == 0 ==> {
                &&& r.0@.phase == Phase::Completed
                &&& r.0@.cursor.pos == 0
                &&& r.0@.pending is None
                &&& r.1@ == ActionView::Nothing
            },
            lines_of(program@).len() > 0 ==> {
                let first = CursorView { lines: lines_of(program@), pos: 0, chunk_size: chunk_size as nat };
                &&& r.0@.phase == Phase::AwaitingAdvance
                &&& r.0@.cursor == first.advanced()
                &&& r.0@.pending == Some(first.next_chunk())
                &&& r.1@ == (ActionView::Publish {
                    topic: delivery_topic@,
                    payload: first.next_chunk(),
                })
            },
    {
        let mut cursor = ChunkCursor::new(program, chunk_size);
        if cursor.is_terminal() {
            let s = Session {
                cursor,
                delivery_topic,
                advance_topic,
                advance_token,
                phase: Phase::Completed,
                pending: None,
            };
            (s, Action::Nothing)
        } else {
            let chunk = cursor.next();
            let action = Action::Publish { topic: delivery_topic.clone(), payload: chunk.clone() };
            let s = Session {
                cursor,
                delivery_topic,
                advance_topic,
                advance_token,
                phase: Phase::AwaitingAdvance,
                pending: Some(chunk),
            };
            (s, action)
        }
    }

    pub fn phase(&self) -> (r: Phase)
        ensures
            r == self@.phase,
    {
        self.phase
    }

    /// Reacts to one inbound message on the advance topic.
    pub fn on_message(&mut self, msg: &str) -> (r: Action)
        requires
            old(self)@.wf(),
        ensures
            final(self)@.wf(),
            (final(self)@, r@) == old(self)@.step(msg@),
    {
        if self.phase != Phase::AwaitingAdvance || !str_eq(msg, self.advance_token.as_str()) {
            return Action::Nothing;
        }
        match &self.pending {
            Some(p) => {
                return Action::Publish { topic: self.delivery_topic.clone(), payload: p.clone() };
            },
            None => {},
        }
        if self.cursor.is_terminal() {
            self.phase = Phase::Completed;
            Action::Stop
        } else {
            let chunk = self.cursor.next();
            let action = Action::Publish {
                topic: self.delivery_topic.clone(),
                payload: chunk.clone(),
            };
            self.pending = Some(chunk);
            action
        }
    }

    /// Takes the outcome of the last publish.
    pub fn on_publish_result(&mut self, ok: bool)
        ensures
            final(self)@ == old(self)@.published(ok),
    {
        if ok && self.phase == Phase::AwaitingAdvance {
            self.pending = None;
        }
    }

    /// Stops a waiting session: from now on it reacts to no message.
    pub fn cancel(&mut self)
        ensures
            final(self)@ == old(self)@.cancelled(),
    {
        if self.phase == Phase::AwaitingAdvance {
            self.phase = Phase::Cancelled;
        }
    }
}

/// Keeps at most one delivery session active: a new session retires the
/// one before it.
pub struct SessionSupervisor {
    active: Option<Session>,
}

pub open spec fn option_view(s: Option<Session>) -> Option<SessionView> {
    match s {
        Some(x) => Some(x@),
        None => None,
    }
}

impl View for SessionSupervisor {
    type V = Option<SessionView>;

    closed spec fn view(&self) -> Option<SessionView> {
        option_view(self.active)
    }
}

pub open spec fn supervisor_wf(v: Option<SessionView>) -> bool {
    v matches Some(s) ==> s.wf()
}

impl SessionSupervisor {
    /// A supervisor with no active session.
    pub fn new() -> (r: SessionSupervisor)
        ensures
            r@ is None,
    {
        SessionSupervisor { active: None }
    }

    /// Stores `s` as the active session and returns the session stored
    /// before it, if any, as it was. Retiring it is the caller's concern.
    pub fn replace(&mut self, s: Session) -> (prev: Option<Session>)
        ensures
            final(self)@ == Some(s@),
            option_view(prev) == old(self)@,
    {
        let prev = self.active.take();
        self.active = Some(s);
        prev
    }

    /// Makes `s` the active session and cancels the one before it, which is
    /// returned.
    pub fn activate(&mut self, s: Session) -> (prev: Option<Session>)
        ensures
            final(self)@ == Some(s@),
            option_view(prev) == match old(self)@ {
                Some(a) => Some(a.cancelled()),
                None => None,
            },
    {
        let prev = self.replace(s);
        match prev {
            Some(p) => {
                let mut p = p;
                p.cancel();
                Some(p)
            },
            None => None,
        }
    }

    /// Cancels and lets go of the active session, which is returned.
    pub fn retire(&mut self) -> (prev: Option<Session>)
        ensures
            final(self)@ is None,
            option_view(prev) == match old(self)@ {
                Some(a) => Some(a.cancelled()),
                None => None,
            },
    {
        match self.active.take() {
            Some(p) => {
                let mut p = p;
                p.cancel();
                Some(p)
            },
            None => None,
        }
    }

    /// Hands an inbound advance-topic message to the active session. A
    /// session that completes on it is let go.
    pub fn on_message(&mut self, msg: &str) -> (r: Action)
        requires
            supervisor_wf(old(self)@),
        ensures
            supervisor_wf(final(self)@),
            old(self)@ is None ==> r@ == ActionView::Nothing && final(self)@ is None,
            old(self)@ matches Some(a) ==> {
                let (n, act) = a.step(msg@);
                &&& r@ == act
                &&& final(self)@ == if n.phase == Phase::Completed {
                    None
                } else {
                    Some(n)
                }
            },
    {
        match self.active.take() {
            None => Action::Nothing,
            Some(s) => {
                let mut s = s;
                let r = s.on_message(msg);
                if s.phase() != Phase::Completed {
                    self.active = Some(s);
                }
                r
            },
        }
    }

    /// Hands the outcome of the last publish to the active session.
    pub fn on_publish_result(&mut self, ok: bool)
        ensures
            final(self)@ == match old(self)@ {
                Some(a) => Some(a.published(ok)),
                None => None,
            },
    {
        match self.active.take() {
            None => {},
            Some(s) => {
                let mut s = s;
                s.on_publish_result(ok);
                self.active = Some(s);
            },
        }
    }

    /// The phase of the active session, if there is one.
    pub fn active_phase(&self) -> (r: Option<Phase>)
        ensures
            r == match self@ {
                Some(a) => Some(a.phase),
                None => None,
            },
    {
        match &self.active {
            Some(s) => Some(s.phase()),
            None => None,
        }
    }
}

/// Character-wise equality of two strings.
fn str_eq(a: &str, b: &str) -> (r: bool)
    ensures
        r == (a@ == b@),
{
    let x = crate::text::chars_of(a);
    let y = crate::text::chars_of(b);
    if x.len() != y.len() {
        return false;
    }
    let mut i: usize = 0;
    while i < x.len()
        invariant
            x@ == a@,
            y@ == b@,
            x.len() == y.len(),
            i <= x.len(),
            forall|k: int| 0 <= k < i ==> x@[k] == y@[k],
        decreases x.len() - i,
    {
        if x[i] != y[i] {
            return false;
        }
        i = i + 1;
    }
    assert(x@ =~= y@);
    true
}

/// A cancelled session draws no action from any message that reaches it
/// afterwards.
pub proof fn lemma_cancelled_session_is_silent(s: SessionView, msgs: Seq<Seq<char>>)
    requires
        s.phase == Phase::AwaitingAdvance,
    ensures
        s.cancelled().replay(msgs).len() == msgs.len(),
        forall|i: int|
            0 <= i < msgs.len() ==> #[trigger] s.cancelled().replay(msgs)[i]
                == ActionView::Nothing,
    decreases msgs.len(),
{
    let c = s.cancelled();
    if msgs.len() > 0 {
        lemma_cancelled_session_is_silent(s, msgs.skip(1));
        assert(c.step(msgs[0]) == (c, ActionView::Nothing));
        assert forall|i: int| 0 <= i < msgs.len() implies #[trigger] c.replay(msgs)[i]
            == ActionView::Nothing by {
            if i > 0 {
                assert(c.replay(msgs)[i] == c.replay(msgs.skip(1))[i - 1]);
            }
        }
    }
}

} // verus!
