//! Whole runs of a session: what a sequence of events leads to, and the
//! sequence that a device produces when all goes well.

use crate::reply::cleanup;
use crate::session::{
    flush_bytes, is_over, stays, transition, ActionView, EventView, Exchange, SessionState, Stage,
};
use crate::strings::utf8_lossy;
use vstd::prelude::*;

verus! {

/// The session that `FocusSession::new` makes for a request of these bytes.
pub open spec fn fresh(request: Seq<u8>) -> SessionState {
    SessionState { stage: Stage::Idle, request, text: Seq::empty() }
}

/// The state that `events` lead to from `state`, and the actions that they
/// call for, one for each event.
pub open spec fn run(state: SessionState, events: Seq<EventView>) -> (SessionState, Seq<ActionView>)
    decreases events.len(),
{
    if events.len() == 0 {
        (state, Seq::empty())
    } else {
        let before = run(state, events.drop_last());
        let after = transition(before.0, events.last());
        (after.0, before.1.push(after.1))
    }
}

/// The text that `chunks` decode to, one after the other.
pub open spec fn decoded(chunks: Seq<Seq<u8>>) -> Seq<char>
    decreases chunks.len(),
{
    if chunks.len() == 0 {
        Seq::empty()
    } else {
        decoded(chunks.drop_last()) + utf8_lossy(chunks.last())
    }
}

/// The event `Pending(0)`, `count` times: polls that find nothing.
pub open spec fn silence(count: nat) -> Seq<EventView> {
    Seq::new(count, |i: int| EventView::Pending(0))
}

/// One `Chunk` event for each of `chunks`.
pub open spec fn reads(chunks: Seq<Seq<u8>>) -> Seq<EventView> {
    Seq::new(chunks.len(), |i: int| EventView::Chunk(chunks[i]))
}

/// The action `action`, `count` times.
pub open spec fn repeated(action: ActionView, count: nat) -> Seq<ActionView> {
    Seq::new(count, |i: int| action)
}

/// The events of one exchange that goes well: the line is written, `waits`
/// polls find nothing, one finds `pending` bytes, the reads return `chunks`,
/// and the last read times out.
pub open spec fn exchange_events(waits: nat, pending: u32, chunks: Seq<Seq<u8>>) -> Seq<
    EventView,
> {
    seq![EventView::Sent] + silence(waits) + seq![EventView::Pending(pending)] + reads(chunks)
        + seq![EventView::Quiet]
}

/// The actions of one exchange that goes well, after the `Send` that began
/// it: a poll, `waits` polls after a pause, a read, `reads` reads after a
/// pause, and `last`.
pub open spec fn exchange_actions(waits: nat, reads: nat, last: ActionView) -> Seq<ActionView> {
    seq![ActionView::Poll] + repeated(ActionView::PollAfterPause, waits) + seq![ActionView::Read]
        + repeated(ActionView::ReadAfterPause, reads) + seq![last]
}

/// A run of two stretches of events is the run of the second from where the
/// first ends.
pub proof fn lemma_run_concat(state: SessionState, first: Seq<EventView>, second: Seq<EventView>)
    ensures
        run(state, first + second).0 == run(run(state, first).0, second).0,
        run(state, first + second).1 == run(state, first).1 + run(run(state, first).0, second).1,
    decreases second.len(),
{
    if second.len() == 0 {
        assert(first + second =~= first);
        assert(run(state, first).1 + Seq::<ActionView>::empty() =~= run(state, first).1);
    } else {
        let all = first + second;
        assert(all.drop_last() =~= first + second.drop_last());
        lemma_run_concat(state, first, second.drop_last());
        let middle = run(state, first);
        let inner = run(middle.0, second.drop_last());
        let step = transition(inner.0, second.last());
        assert(run(state, all).1 =~= middle.1 + inner.1.push(step.1));
    }
}

/// A run of one event is one transition.
pub proof fn lemma_run_one(state: SessionState, event: EventView)
    ensures
        run(state, seq![event]).0 == transition(state, event).0,
        run(state, seq![event]).1 == seq![transition(state, event).1],
{
    let events = seq![event];
    let none = Seq::<EventView>::empty();
    assert(events.drop_last() =~= none);
    assert(run(state, none) == (state, Seq::<ActionView>::empty()));
    assert(run(state, events).1 =~= seq![transition(state, event).1]);
}

/// No event changes the request that a session was made for.
pub proof fn lemma_request_is_kept(state: SessionState, event: EventView)
    ensures
        transition(state, event).0.request == state.request,
{
}

/// A session that is over stays over: whatever events follow, it is left as
/// it is, and each of them is answered by the action it ended with. After a
/// failure, then, nothing is sent, polled or read any more.
pub proof fn lemma_run_over(state: SessionState, events: Seq<EventView>)
    requires
        is_over(state.stage),
    ensures
        run(state, events).0 == state,
        run(state, events).1 == repeated(stays(state).1, events.len()),
    decreases events.len(),
{
    if events.len() == 0 {
        assert(run(state, events).1 =~= repeated(stays(state).1, events.len()));
    } else {
        lemma_run_over(state, events.drop_last());
        assert(run(state, events).1 =~= repeated(stays(state).1, events.len()));
    }
}

/// While the device has nothing to read, a session that awaits the reply
/// stays where it is and polls again after each pause.
pub proof fn lemma_run_silence(state: SessionState, count: nat)
    requires
        state.stage is AwaitingReply,
    ensures
        run(state, silence(count)).0 == state,
        run(state, silence(count)).1 == repeated(ActionView::PollAfterPause, count),
    decreases count,
{
    if count == 0 {
        assert(run(state, silence(count)).1 =~= repeated(ActionView::PollAfterPause, count));
    } else {
        lemma_run_silence(state, (count - 1) as nat);
        assert(silence(count).drop_last() =~= silence((count - 1) as nat));
        assert(run(state, silence(count)).1 =~= repeated(ActionView::PollAfterPause, count));
    }
}

/// A session that drains takes in the text of every chunk, in order, and
/// reads again after each pause.
pub proof fn lemma_run_reads(state: SessionState, chunks: Seq<Seq<u8>>)
    requires
        state.stage is Draining,
    ensures
        run(state, reads(chunks)).0 == (SessionState {
            stage: state.stage,
            request: state.request,
            text: state.text + decoded(chunks),
        }),
        run(state, reads(chunks)).1 == repeated(ActionView::ReadAfterPause, chunks.len()),
    decreases chunks.len(),
{
    if chunks.len() == 0 {
        assert(state.text + decoded(chunks) =~= state.text);
        assert(run(state, reads(chunks)).1 =~= repeated(ActionView::ReadAfterPause, chunks.len()));
    } else {
        let front = chunks.drop_last();
        lemma_run_reads(state, front);
        assert(reads(chunks).drop_last() =~= reads(front));
        assert(state.text + decoded(front) + utf8_lossy(chunks.last()) =~= state.text + decoded(
            chunks,
        ));
        assert(run(state, reads(chunks)).1 =~= repeated(ActionView::ReadAfterPause, chunks.len()));
    }
}

/// An exchange that goes well. From the moment its line is handed out for
/// writing, the events of `exchange_events` lead to the end of the exchange
/// with the text of all chunks received; the last action is what
/// `transition` makes of the time-out in that state.
pub proof fn lemma_run_exchange(
    state: SessionState,
    exchange: Exchange,
    waits: nat,
    pending: u32,
    chunks: Seq<Seq<u8>>,
)
    requires
        state.stage == Stage::Sending(exchange),
        pending > 0,
    ensures
        ({
            let full = SessionState {
                stage: Stage::Draining(exchange),
                request: state.request,
                text: decoded(chunks),
            };
            let end = run(state, exchange_events(waits, pending, chunks));
            &&& end.0 == transition(full, EventView::Quiet).0
            &&& end.1 == exchange_actions(waits, chunks.len(), transition(full, EventView::Quiet).1)
        }),
{
    let sent = seq![EventView::Sent];
    let found = seq![EventView::Pending(pending)];
    let quiet = seq![EventView::Quiet];
    let waiting = SessionState {
        stage: Stage::AwaitingReply(exchange),
        request: state.request,
        text: state.text,
    };
    let empty = SessionState {
        stage: Stage::Draining(exchange),
        request: state.request,
        text: Seq::empty(),
    };
    let full = SessionState {
        stage: Stage::Draining(exchange),
        request: state.request,
        text: decoded(chunks),
    };
    lemma_run_one(state, EventView::Sent);
    lemma_run_silence(waiting, waits);
    lemma_run_one(waiting, EventView::Pending(pending));
    lemma_run_reads(empty, chunks);
    assert(Seq::<char>::empty() + decoded(chunks) =~= decoded(chunks));
    lemma_run_one(full, EventView::Quiet);
    lemma_run_concat(state, sent, silence(waits));
    lemma_run_concat(state, sent + silence(waits), found);
    lemma_run_concat(state, sent + silence(waits) + found, reads(chunks));
    lemma_run_concat(state, sent + silence(waits) + found + reads(chunks), quiet);
}

/// A session in which all goes well delivers the cleaned reply.
///
/// The flush may wait any number of polls and bring any stale bytes: they
/// are dropped. The bytes of the request are then handed out as they were
/// framed. Whatever chunks the reply comes in, after however many polls, the
/// session ends with `Deliver` of the cleaned text that the chunks decode
/// to, and every action before it is the one that the protocol asks for.
pub proof fn lemma_run_session(
    request: Seq<u8>,
    flush_waits: nat,
    flush_pending: u32,
    stale: Seq<Seq<u8>>,
    waits: nat,
    pending: u32,
    chunks: Seq<Seq<u8>>,
)
    requires
        flush_pending > 0,
        pending > 0,
    ensures
        ({
            let events = seq![EventView::Start] + exchange_events(flush_waits, flush_pending, stale)
                + exchange_events(waits, pending, chunks);
            let reply = cleanup(decoded(chunks));
            let end = run(fresh(request), events);
            &&& end.0 == SessionState { stage: Stage::Done, request, text: reply }
            &&& end.1 == seq![ActionView::Send(flush_bytes())] + exchange_actions(
                flush_waits,
                stale.len(),
                ActionView::Send(request),
            ) + exchange_actions(waits, chunks.len(), ActionView::Deliver(reply))
        }),
{
    let start = seq![EventView::Start];
    let flush = exchange_events(flush_waits, flush_pending, stale);
    let flushing = SessionState {
        stage: Stage::Sending(Exchange::Flush),
        request,
        text: Seq::empty(),
    };
    let asking = SessionState {
        stage: Stage::Sending(Exchange::Request),
        request,
        text: Seq::empty(),
    };
    lemma_run_one(fresh(request), EventView::Start);
    lemma_run_exchange(flushing, Exchange::Flush, flush_waits, flush_pending, stale);
    lemma_run_exchange(asking, Exchange::Request, waits, pending, chunks);
    lemma_run_concat(fresh(request), start, flush);
    lemma_run_concat(fresh(request), start + flush, exchange_events(waits, pending, chunks));
}

} // verus!
