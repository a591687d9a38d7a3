//! One session with the keyboard, as a state machine without I/O.
//!
//! A session is two exchanges over the same connection. The first sends a
//! lone space as a command and throws the answer away, so that nothing the
//! firmware still had queued is taken for the reply. The second sends the
//! user's request and keeps the answer. Each exchange writes one line, polls
//! until the device has bytes to read, and reads until a read times out: the
//! device marks the end of a reply only by falling silent.
//!
//! The caller owns the connection. It hands `step` what the transport did
//! (an `Event`) and gets back what to do next (an `Action`), until the action
//! is `Deliver` or `Abort`.

use crate::reply::{cleanup, cleanup_reply};
use crate::request::{frame_request, request_bytes};
use crate::strings::{decode_lossy, utf8_lossy};
use vstd::prelude::*;
use vstd::slice::slice_to_vec;
use vstd::string::StringExecFns;

verus! {

/// Speed of the serial connection, in baud.
pub const BAUD_RATE: u32 = 11520;

/// How long one read waits for bytes before it counts as timed out, in milliseconds.
pub const READ_TIMEOUT_MS: u64 = 100;

/// The pause before a poll or a read that is not the first of its kind, in milliseconds.
pub const PAUSE_MS: u64 = 100;

/// The most bytes that one read takes.
pub const READ_SIZE: usize = 1024;

/// The two exchanges of a session. While the exchange is `Flush`, the
/// session is flushing.
#[derive(Clone, Copy, Debug, PartialEq, Eq, Structural)]
pub enum Exchange {
    /// The lone space, whose answer is thrown away.
    Flush,
    /// The user's request.
    Request,
}

/// What went wrong.
#[derive(Clone, Copy, Debug, PartialEq, Eq, Structural)]
pub enum Fault {
    /// The request could not be written.
    Write,
    /// The transport could not say how many bytes wait to be read.
    Query,
    /// A read failed otherwise than by timing out.
    Read,
    /// The event is none that the action before it can end in.
    OutOfTurn,
}

/// Why a session failed: the fault, and the exchange it happened in. An
/// event that comes before the session has started counts to the flush.
#[derive(Clone, Copy, Debug, PartialEq, Eq, Structural)]
pub struct Failure {
    pub exchange: Exchange,
    pub fault: Fault,
}

/// Where a session stands.
#[derive(Clone, Copy, Debug, PartialEq, Eq, Structural)]
pub enum Stage {
    /// Nothing has been sent yet.
    Idle,
    /// A line is being written.
    Sending(Exchange),
    /// The line is written; the device has not answered yet.
    AwaitingReply(Exchange),
    /// The answer is being read.
    Draining(Exchange),
    /// The reply is complete.
    Done,
    /// The session failed.
    Failed(Failure),
}

/// What the transport did on the session's last action.
#[derive(Debug)]
pub enum Event {
    /// The caller is ready to begin.
    Start,
    /// The whole line was written.
    Sent,
    /// The transport has this many bytes waiting to be read.
    Pending(u32),
    /// A read returned these bytes.
    Chunk(Vec<u8>),
    /// A read timed out: the device is silent.
    Quiet,
    /// The transport reported an error.
    Broken,
}

/// What the caller is to do next.
#[derive(Debug, PartialEq, Eq)]
pub enum Action {
    /// Raise the ready-to-send line, then write all of these bytes.
    Send(Vec<u8>),
    /// Ask the transport how many bytes wait to be read.
    Poll,
    /// Pause for `PAUSE_MS`, then ask again.
    PollAfterPause,
    /// Look at the ready-to-receive line, then read up to `READ_SIZE` bytes,
    /// waiting no longer than `READ_TIMEOUT_MS`.
    Read,
    /// Pause for `PAUSE_MS`, then read again.
    ReadAfterPause,
    /// The session is over; this is the reply.
    Deliver(String),
    /// The session is over; it failed.
    Abort(Failure),
}

/// An `Event` as a mathematical value.
pub enum EventView {
    Start,
    Sent,
    Pending(u32),
    Chunk(Seq<u8>),
    Quiet,
    Broken,
}

/// An `Action` as a mathematical value.
pub enum ActionView {
    Send(Seq<u8>),
    Poll,
    PollAfterPause,
    Read,
    ReadAfterPause,
    Deliver(Seq<char>),
    Abort(Failure),
}

/// A session as a mathematical value.
pub struct SessionState {
    pub stage: Stage,
    /// The bytes of the user's request.
    pub request: Seq<u8>,
    /// While draining, the text received so far in this exchange; when done,
    /// the reply; empty before.
    pub text: Seq<char>,
}

impl View for Event {
    type V = EventView;

    open spec fn view(&self) -> EventView {
        match *self {
            Event::Start => EventView::Start,
            Event::Sent => EventView::Sent,
            Event::Pending(count) => EventView::Pending(count),
            Event::Chunk(bytes) => EventView::Chunk(bytes@),
            Event::Quiet => EventView::Quiet,
            Event::Broken => EventView::Broken,
        }
    }
}

impl View for Action {
    type V = ActionView;

    open spec fn view(&self) -> ActionView {
        match *self {
            Action::Send(bytes) => ActionView::Send(bytes@),
            Action::Poll => ActionView::Poll,
            Action::PollAfterPause => ActionView::PollAfterPause,
            Action::Read => ActionView::Read,
            Action::ReadAfterPause => ActionView::ReadAfterPause,
            Action::Deliver(reply) => ActionView::Deliver(reply@),
            Action::Abort(failure) => ActionView::Abort(failure),
        }
    }
}

/// The line that a flush sends: a lone space as the command, no arguments.
pub open spec fn flush_bytes() -> Seq<u8> {
    request_bytes(seq![' '], Seq::empty())
}

/// The exchange that `stage` belongs to; the flush before the start.
pub open spec fn exchange_of(stage: Stage) -> Exchange {
    match stage {
        Stage::Sending(exchange) => exchange,
        Stage::AwaitingReply(exchange) => exchange,
        Stage::Draining(exchange) => exchange,
        _ => Exchange::Flush,
    }
}

/// `state` moved to `stage`, its text as given.
pub open spec fn moved(state: SessionState, stage: Stage, text: Seq<char>) -> SessionState {
    SessionState { stage, request: state.request, text }
}

/// The session fails with `fault`.
pub open spec fn failed(state: SessionState, fault: Fault) -> (SessionState, ActionView) {
    let failure = Failure { exchange: exchange_of(state.stage), fault };
    (moved(state, Stage::Failed(failure), state.text), ActionView::Abort(failure))
}

/// A session that is over stays as it is and repeats its last action.
pub open spec fn stays(state: SessionState) -> (SessionState, ActionView) {
    match state.stage {
        Stage::Failed(failure) => (state, ActionView::Abort(failure)),
        _ => (state, ActionView::Deliver(state.text)),
    }
}

/// Whether the session is over.
pub open spec fn is_over(stage: Stage) -> bool {
    stage is Done || stage is Failed
}

/// A read returned bytes that decode to `text`. While draining, the text is
/// added to what was received and the next read follows a pause.
pub open spec fn received(state: SessionState, text: Seq<char>) -> (SessionState, ActionView) {
    match state.stage {
        Stage::Draining(_) => (
            moved(state, state.stage, state.text + text),
            ActionView::ReadAfterPause,
        ),
        Stage::Done | Stage::Failed(_) => stays(state),
        _ => failed(state, Fault::OutOfTurn),
    }
}

/// The state after `event`, and the action it calls for.
///
/// - The start sends the flush line.
/// - A line that is written is followed by polling: at once the first time,
///   after a pause whenever the device had nothing yet. The first poll that
///   finds bytes starts the reading, with nothing received so far.
/// - Every chunk read is decoded and added to what was received, and the
///   next read follows a pause. The read that times out ends the exchange:
///   after the flush, what was received is dropped and the request is sent;
///   after the request, what was received is cleaned and delivered.
/// - An error of the transport fails the session with the fault of the
///   action that was under way. So does an event that this action cannot
///   end in.
/// - Once the session is over, every event leaves it as it is.
pub open spec fn transition(state: SessionState, event: EventView) -> (SessionState, ActionView) {
    match (state.stage, event) {
        (Stage::Done, _) => stays(state),
        (Stage::Failed(_), _) => stays(state),
        (_, EventView::Chunk(bytes)) => received(state, utf8_lossy(bytes)),
        (Stage::Idle, EventView::Start) => (
            moved(state, Stage::Sending(Exchange::Flush), state.text),
            ActionView::Send(flush_bytes()),
        ),
        (Stage::Sending(exchange), EventView::Sent) => (
            moved(state, Stage::AwaitingReply(exchange), state.text),
            ActionView::Poll,
        ),
        (Stage::Sending(_), EventView::Broken) => failed(state, Fault::Write),
        (Stage::AwaitingReply(exchange), EventView::Pending(count)) => if count == 0 {
            (state, ActionView::PollAfterPause)
        } else {
            (moved(state, Stage::Draining(exchange), Seq::empty()), ActionView::Read)
        },
        (Stage::AwaitingReply(_), EventView::Broken) => failed(state, Fault::Query),
        (Stage::Draining(Exchange::Flush), EventView::Quiet) => (
            moved(state, Stage::Sending(Exchange::Request), Seq::empty()),
            ActionView::Send(state.request),
        ),
        (Stage::Draining(Exchange::Request), EventView::Quiet) => (
            moved(state, Stage::Done, cleanup(state.text)),
            ActionView::Deliver(cleanup(state.text)),
        ),
        (Stage::Draining(_), EventView::Broken) => failed(state, Fault::Read),
        _ => failed(state, Fault::OutOfTurn),
    }
}

/// One session: a flush, then the request and its reply.
pub struct FocusSession {
    stage: Stage,
    request: Vec<u8>,
    text: String,
}

impl View for FocusSession {
    type V = SessionState;

    closed spec fn view(&self) -> SessionState {
        SessionState { stage: self.stage, request: self.request@, text: self.text@ }
    }
}

impl FocusSession {
    /// A session that will send `command` with `args`; nothing is sent yet.
    pub fn new(command: &str, args: &Vec<String>) -> (session: FocusSession)
        ensures
            session@ == (SessionState {
                stage: Stage::Idle,
                request: request_bytes(command@, args.deep_view()),
                text: Seq::empty(),
            }),
    {
        FocusSession {
            stage: Stage::Idle,
            request: frame_request(command, args),
            text: String::new(),
        }
    }

    /// Where the session stands.
    pub fn stage(&self) -> (stage: Stage)
        ensures
            stage == self@.stage,
    {
        self.stage
    }

    /// Fails the session with `fault`.
    fn fail(&mut self, fault: Fault) -> (action: Action)
        ensures
            (final(self)@, action@) == failed(old(self)@, fault),
    {
        let exchange = match self.stage {
            Stage::Sending(exchange) => exchange,
            Stage::AwaitingReply(exchange) => exchange,
            Stage::Draining(exchange) => exchange,
            _ => Exchange::Flush,
        };
        let failure = Failure { exchange, fault };
        self.stage = Stage::Failed(failure);
        Action::Abort(failure)
    }

    /// Repeats the last action of a session that is over.
    fn repeat(&self) -> (action: Action)
        requires
            is_over(self@.stage),
        ensures
            (self@, action@) == stays(self@),
    {
        match self.stage {
            Stage::Failed(failure) => Action::Abort(failure),
            _ => Action::Deliver(self.text.clone()),
        }
    }

    /// Takes in the text of one chunk that was read: `step` for a chunk
    /// whose bytes are decoded already.
    pub fn receive(&mut self, text: &str) -> (action: Action)
        ensures
            (final(self)@, action@) == received(old(self)@, text@),
    {
        match self.stage {
            Stage::Draining(_) => {
                self.text.append(text);
                Action::ReadAfterPause
            },
            Stage::Done | Stage::Failed(_) => self.repeat(),
            _ => self.fail(Fault::OutOfTurn),
        }
    }

    /// Takes in what the transport did on the last action, and says what to
    /// do next: see `transition`.
    pub fn step(&mut self, event: Event) -> (action: Action)
        ensures
            (final(self)@, action@) == transition(old(self)@, event@),
    {
        match (self.stage, event) {
            (Stage::Done, _) => self.repeat(),
            (Stage::Failed(_), _) => self.repeat(),
            (_, Event::Chunk(bytes)) => {
                let text = decode_lossy(&bytes);
                self.receive(text.as_str())
            },
            (Stage::Idle, Event::Start) => {
                self.stage = Stage::Sending(Exchange::Flush);
                let no_args: Vec<String> = Vec::new();
                proof {
                    reveal_strlit(" ");
                    assert(" "@ =~= seq![' ']);
                    assert(no_args.deep_view() =~= Seq::<Seq<char>>::empty());
                }
                Action::Send(frame_request(" ", &no_args))
            },
            (Stage::Sending(exchange), Event::Sent) => {
                self.stage = Stage::AwaitingReply(exchange);
                Action::Poll
            },
            (Stage::Sending(_), Event::Broken) => self.fail(Fault::Write),
            (Stage::AwaitingReply(exchange), Event::Pending(count)) => {
                if count == 0 {
                    Action::PollAfterPause
                } else {
                    self.stage = Stage::Draining(exchange);
                    self.text = String::new();
                    Action::Read
                }
            },
            (Stage::AwaitingReply(_), Event::Broken) => self.fail(Fault::Query),
            (Stage::Draining(Exchange::Flush), Event::Quiet) => {
                self.stage = Stage::Sending(Exchange::Request);
                self.text = String::new();
                Action::Send(slice_to_vec(self.request.as_slice()))
            },
            (Stage::Draining(Exchange::Request), Event::Quiet) => {
                let mut raw = String::new();
                core::mem::swap(&mut self.text, &mut raw);
                let reply = cleanup_reply(raw);
                self.stage = Stage::Done;
                self.text = reply.clone();
                Action::Deliver(reply)
            },
            (Stage::Draining(_), Event::Broken) => self.fail(Fault::Read),
            _ => self.fail(Fault::OutOfTurn),
        }
    }
}

} // verus!
