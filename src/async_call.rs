//! The decisions of one asynchronous native call: poll until the native side
//! reports READY, then complete once, then release the operation handle once.
//! The caller performs each returned action against the native library and
//! feeds back what it observed.
use vstd::prelude::*;
use crate::call_status::{finish_call, finish_call_with, internal_error_for, CallStatus, CALL_SUCCESS, CALL_ERROR};
use crate::codec::FfiConverter;
use crate::error::{CallError, InternalError};

verus! {

/// Poll result meaning the operation can be completed.
pub const POLL_READY: i8 = 0;

/// Poll result meaning the operation woke but must be polled again.
pub const POLL_MAYBE_READY: i8 = 1;

#[derive(Debug, Clone, Copy, PartialEq, Eq, Structural)]
pub enum Phase {
    /// The operation handle exists; nothing was polled yet.
    Started,
    /// A continuation is registered and a poll is outstanding.
    Waiting,
    /// READY was observed; the continuation is torn down.
    Ready,
    /// The completion call returned.
    Completed,
    /// The operation handle was released.
    Released,
}

/// What the caller must do next.
#[derive(Debug, Clone, Copy, PartialEq, Eq, Structural)]
pub enum Action {
    /// Ask the native side to poll, and notify the continuation.
    Poll,
    /// Tear down the continuation and make the status-checked completion call.
    Complete,
    /// Release the operation handle.
    Release,
    /// Nothing is left to do.
    Done,
}

/// What one session has done so far: its phase, how many polls it asked
/// for, and how many times it released the operation handle.
pub struct SessionView {
    pub phase: Phase,
    pub polls: nat,
    pub releases: nat,
}

/// An event of a session, as its caller reports them.
pub enum Event {
    Begin,
    PollResult(i8),
    /// The completion call returned a status with this code.
    Completion(i8),
    Release,
}

pub open spec fn initial_session() -> SessionView {
    SessionView { phase: Phase::Started, polls: 0, releases: 0 }
}

/// The events that a session in state `s` accepts.
pub open spec fn accepts(s: SessionView, e: Event) -> bool {
    match e {
        Event::Begin => s.phase == Phase::Started,
        Event::PollResult(_) => s.phase == Phase::Waiting,
        Event::Completion(_) => s.phase == Phase::Ready,
        Event::Release => s.phase == Phase::Completed,
    }
}

/// The state after event `e`.
pub open spec fn step(s: SessionView, e: Event) -> SessionView {
    match e {
        Event::Begin => SessionView { phase: Phase::Waiting, polls: s.polls + 1, ..s },
        Event::PollResult(p) => if p == POLL_READY {
            SessionView { phase: Phase::Ready, ..s }
        } else {
            SessionView { polls: s.polls + 1, ..s }
        },
        Event::Completion(_) => SessionView { phase: Phase::Completed, ..s },
        Event::Release => SessionView { phase: Phase::Released, releases: s.releases + 1, ..s },
    }
}

/// The state after the events `es`, in order.
pub open spec fn run(s: SessionView, es: Seq<Event>) -> SessionView
    decreases es.len(),
{
    if es.len() == 0 {
        s
    } else {
        step(run(s, es.drop_last()), es.last())
    }
}

/// Every event of `es` is accepted by the state it reaches.
pub open spec fn all_accepted(s: SessionView, es: Seq<Event>) -> bool
    decreases es.len(),
{
    if es.len() == 0 {
        true
    } else {
        all_accepted(s, es.drop_last()) && accepts(run(s, es.drop_last()), es.last())
    }
}

/// The action a session in state `s` asks for.
pub open spec fn next_action(s: SessionView) -> Action {
    match s.phase {
        Phase::Started => Action::Poll,
        Phase::Waiting => Action::Poll,
        Phase::Ready => Action::Complete,
        Phase::Completed => Action::Release,
        Phase::Released => Action::Done,
    }
}

/// One asynchronous call in flight. It owns the operation handle from start
/// to release.
pub struct AsyncSession {
    phase: Phase,
    polls: u64,
    releases: u64,
}

impl AsyncSession {
    pub closed spec fn view(&self) -> SessionView {
        SessionView { phase: self.phase, polls: self.polls as nat, releases: self.releases as nat }
    }

    /// A session for an operation that was just started.
    pub fn new() -> (r: AsyncSession)
        ensures
            r.view() == initial_session(),
    {
        AsyncSession { phase: Phase::Started, polls: 0, releases: 0 }
    }

    pub fn phase(&self) -> (r: Phase)
        ensures
            r == self.view().phase,
    {
        self.phase
    }

    pub fn polls(&self) -> (r: u64)
        ensures
            r == self.view().polls,
    {
        self.polls
    }

    pub fn releases(&self) -> (r: u64)
        ensures
            r == self.view().releases,
    {
        self.releases
    }

    /// Registers the continuation and issues the first poll.
    pub fn begin(&mut self) -> (a: Action)
        requires
            accepts(old(self).view(), Event::Begin),
            old(self).view().polls < u64::MAX,
        ensures
            final(self).view() == step(old(self).view(), Event::Begin),
            a == Action::Poll,
    {
        self.phase = Phase::Waiting;
        self.polls = self.polls + 1;
        Action::Poll
    }

    /// Handles one invocation of the continuation: READY ends the waiting,
    /// any other result asks for another poll.
    pub fn on_poll_result(&mut self, poll_result: i8) -> (a: Action)
        requires
            accepts(old(self).view(), Event::PollResult(poll_result)),
            old(self).view().polls < u64::MAX,
        ensures
            final(self).view() == step(old(self).view(), Event::PollResult(poll_result)),
            a == next_action(final(self).view()),
            a == (if poll_result == POLL_READY {
                Action::Complete
            } else {
                Action::Poll
            }),
    {
        if poll_result == POLL_READY {
            self.phase = Phase::Ready;
            Action::Complete
        } else {
            self.polls = self.polls + 1;
            Action::Poll
        }
    }

    /// Takes the outcome of the completion call. Whatever the status, the
    /// next action is to release the operation handle.
    pub fn complete<F>(&mut self, raw: F, status: CallStatus) -> (r: Result<F, InternalError>)
        requires
            accepts(old(self).view(), Event::Completion(status.code)),
        ensures
            final(self).view() == step(old(self).view(), Event::Completion(status.code)),
            next_action(final(self).view()) == Action::Release,
            r is Ok <==> status.code == CALL_SUCCESS,
            r matches Ok(v) ==> v == raw,
            r matches Err(e) ==> internal_error_for(status.code, status.error_buf@, e),
    {
        self.phase = Phase::Completed;
        finish_call(raw, status)
    }

    /// Like `complete`, with application errors decoded as values of `E`.
    pub fn complete_with<F, E: FfiConverter>(&mut self, raw: F, status: CallStatus) -> (r: Result<F, CallError<E>>)
        requires
            accepts(old(self).view(), Event::Completion(status.code)),
        ensures
            final(self).view() == step(old(self).view(), Event::Completion(status.code)),
            next_action(final(self).view()) == Action::Release,
            r is Ok <==> status.code == CALL_SUCCESS,
            r matches Ok(v) ==> v == raw,
            r matches Err(CallError::Application(e)) ==> status.code == CALL_ERROR && E::encodable(e.model())
                && status.error_buf@ == E::wire(e.model()),
            status.code == CALL_ERROR ==> forall|m: E::Model|
                E::encodable(m) && status.error_buf@ == #[trigger] E::wire(m) ==> (r matches Err(
                    CallError::Application(e),
                ) && e.model() == m),
            status.code != CALL_ERROR ==> (r matches Err(CallError::Internal(e)) ==> internal_error_for(
                status.code,
                status.error_buf@,
                e,
            )),
    {
        self.phase = Phase::Completed;
        finish_call_with::<F, E>(raw, status)
    }

    /// Records that the operation handle was released.
    pub fn release(&mut self) -> (a: Action)
        requires
            accepts(old(self).view(), Event::Release),
            old(self).view().releases < u64::MAX,
        ensures
            final(self).view() == step(old(self).view(), Event::Release),
            a == Action::Done,
    {
        self.phase = Phase::Released;
        self.releases = self.releases + 1;
        Action::Done
    }
}

/// The events of a whole session: begin, the poll results `wakes`, READY, a
/// completion whose status has `code`, and the release.
pub open spec fn session_events(wakes: Seq<i8>, code: i8) -> Seq<Event> {
    seq![Event::Begin] + wakes.map_values(|p: i8| Event::PollResult(p)) + seq![
        Event::PollResult(POLL_READY),
        Event::Completion(code),
        Event::Release,
    ]
}

proof fn lemma_run_push(s: SessionView, es: Seq<Event>, e: Event)
    ensures
        run(s, es.push(e)) == step(run(s, es), e),
        all_accepted(s, es.push(e)) == (all_accepted(s, es) && accepts(run(s, es), e)),
{
    assert(es.push(e).drop_last() =~= es);
}

proof fn lemma_waiting_prefix(wakes: Seq<i8>)
    requires
        forall|i: int| 0 <= i < wakes.len() ==> wakes[i] != POLL_READY,
    ensures
        ({
            let es = seq![Event::Begin] + wakes.map_values(|p: i8| Event::PollResult(p));
            &&& all_accepted(initial_session(), es)
            &&& run(initial_session(), es) == SessionView {
                phase: Phase::Waiting,
                polls: wakes.len() + 1,
                releases: 0,
            }
        }),
    decreases wakes.len(),
{
    let es = seq![Event::Begin] + wakes.map_values(|p: i8| Event::PollResult(p));
    if wakes.len() == 0 {
        assert(es =~= seq![Event::Begin]);
        lemma_run_push(initial_session(), Seq::<Event>::empty(), Event::Begin);
        assert(seq![Event::Begin] =~= Seq::<Event>::empty().push(Event::Begin));
    } else {
        let w = wakes.drop_last();
        let prev = seq![Event::Begin] + w.map_values(|p: i8| Event::PollResult(p));
        lemma_waiting_prefix(w);
        assert(es =~= prev.push(Event::PollResult(wakes.last())));
        lemma_run_push(initial_session(), prev, Event::PollResult(wakes.last()));
    }
}

/// A session whose poll results are `wakes`, none of them READY, and then
/// READY, accepts all its events, asks for exactly `wakes.len() + 1` polls,
/// and releases its operation handle exactly once, whatever code the
/// completion call reported, an application error included.
pub proof fn lemma_polls_until_ready(wakes: Seq<i8>, code: i8)
    requires
        forall|i: int| 0 <= i < wakes.len() ==> wakes[i] != POLL_READY,
    ensures
        all_accepted(initial_session(), session_events(wakes, code)),
        run(initial_session(), session_events(wakes, code)) == (SessionView {
            phase: Phase::Released,
            polls: wakes.len() + 1,
            releases: 1,
        }),
{
    let pre = seq![Event::Begin] + wakes.map_values(|p: i8| Event::PollResult(p));
    lemma_waiting_prefix(wakes);
    let e1 = pre.push(Event::PollResult(POLL_READY));
    let e2 = e1.push(Event::Completion(code));
    let e3 = e2.push(Event::Release);
    lemma_run_push(initial_session(), pre, Event::PollResult(POLL_READY));
    lemma_run_push(initial_session(), e1, Event::Completion(code));
    lemma_run_push(initial_session(), e2, Event::Release);
    assert(session_events(wakes, code) =~= e3);
}

/// READY on the first poll: after one poll the session asks for the
/// completion call at once.
pub proof fn lemma_ready_at_first_poll()
    ensures
        ({
            let s = run(initial_session(), seq![Event::Begin, Event::PollResult(POLL_READY)]);
            &&& all_accepted(initial_session(), seq![Event::Begin, Event::PollResult(POLL_READY)])
            &&& s.polls == 1
            &&& next_action(s) == Action::Complete
        }),
{
    lemma_run_push(initial_session(), Seq::<Event>::empty(), Event::Begin);
    assert(seq![Event::Begin] =~= Seq::<Event>::empty().push(Event::Begin));
    lemma_run_push(initial_session(), seq![Event::Begin], Event::PollResult(POLL_READY));
    assert(seq![Event::Begin, Event::PollResult(POLL_READY)] =~= seq![Event::Begin].push(
        Event::PollResult(POLL_READY),
    ));
}

/// In any run of accepted events the operation handle is released at most
/// once, and it has been released exactly when the session is over.
pub proof fn lemma_released_at_most_once(es: Seq<Event>)
    requires
        all_accepted(initial_session(), es),
    ensures
        run(initial_session(), es).releases == (if run(initial_session(), es).phase == Phase::Released {
            1nat
        } else {
            0nat
        }),
    decreases es.len(),
{
    if es.len() > 0 {
        lemma_released_at_most_once(es.drop_last());
    }
}

} // verus!
