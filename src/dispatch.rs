use vstd::prelude::*;
use std::collections::VecDeque;

verus! {

/// The dispatcher as mathematical values: events waiting in arrival order,
/// the event whose command is running, and whether the worker has stopped.
pub ghost struct DispatchState {
    pub pending: Seq<bool>,
    pub running: Option<bool>,
    pub stopped: bool,
}

/// A fresh dispatcher: nothing queued, nothing running.
pub open spec fn idle() -> DispatchState {
    DispatchState { pending: Seq::empty(), running: None, stopped: false }
}

/// An event arrives: it joins the back of the queue, unless the worker has
/// stopped, in which case it is dropped.
pub open spec fn push_spec(s: DispatchState, event: bool) -> DispatchState {
    if s.stopped {
        s
    } else {
        DispatchState { pending: s.pending.push(event), ..s }
    }
}

/// The worker asks for work: when it is alive, idle and something is
/// queued, the oldest event starts running and is handed out.
pub open spec fn next_spec(s: DispatchState) -> (DispatchState, Option<bool>) {
    if !s.stopped && s.running is None && s.pending.len() > 0 {
        (
            DispatchState { pending: s.pending.drop_first(), running: Some(s.pending[0]), ..s },
            Some(s.pending[0]),
        )
    } else {
        (s, None)
    }
}

/// The running command is over. When it could not be started at all, the
/// worker stops for good and everything queued is dropped.
pub open spec fn finish_spec(s: DispatchState, started: bool) -> DispatchState {
    if started {
        DispatchState { running: None, ..s }
    } else {
        DispatchState { pending: Seq::empty(), running: None, stopped: true }
    }
}

/// The state after `events` arrive in order.
pub open spec fn push_all(s: DispatchState, events: Seq<bool>) -> DispatchState
    decreases events.len(),
{
    if events.len() == 0 {
        s
    } else {
        push_spec(push_all(s, events.drop_last()), events.last())
    }
}

/// The events handed out when the worker runs `n` commands one after the
/// other, each started successfully and waited for before asking again.
pub open spec fn drain(s: DispatchState, n: nat) -> Seq<bool>
    decreases n,
{
    if n == 0 {
        Seq::empty()
    } else {
        let (s1, e) = next_spec(s);
        match e {
            Some(x) => seq![x] + drain(finish_spec(s1, true), (n - 1) as nat),
            None => Seq::empty(),
        }
    }
}

proof fn lemma_push_all(s: DispatchState, events: Seq<bool>)
    requires
        !s.stopped,
    ensures
        push_all(s, events) == (DispatchState { pending: s.pending + events, ..s }),
    decreases events.len(),
{
    if events.len() > 0 {
        lemma_push_all(s, events.drop_last());
        assert(s.pending + events.drop_last().push(events.last()) =~= s.pending + events);
        assert(events.drop_last().push(events.last()) =~= events);
    }
}

proof fn lemma_drain_queue(q: Seq<bool>)
    ensures
        drain(DispatchState { pending: q, running: None, stopped: false }, q.len()) == q,
    decreases q.len(),
{
    if q.len() > 0 {
        lemma_drain_queue(q.drop_first());
        assert(seq![q[0]] + q.drop_first() =~= q);
    }
}

/// Events are executed strictly in the order they arrived, none skipped,
/// none merged: whatever sequence reaches an idle dispatcher comes out of it
/// unchanged, one command at a time.
pub proof fn lemma_fifo_order(events: Seq<bool>)
    ensures
        drain(push_all(idle(), events), events.len()) == events,
{
    lemma_push_all(idle(), events);
    assert(idle().pending + events =~= events);
    lemma_drain_queue(events);
}

/// Hands transition events from the signal path to a single worker that runs
/// one command at a time, in arrival order, without ever making the producer
/// wait.
pub struct Dispatcher {
    pending: VecDeque<bool>,
    running: Option<bool>,
    stopped: bool,
}

impl View for Dispatcher {
    type V = DispatchState;

    closed spec fn view(&self) -> DispatchState {
        DispatchState { pending: self.pending@, running: self.running, stopped: self.stopped }
    }
}

impl Dispatcher {
    /// An idle dispatcher with nothing queued.
    pub fn new() -> (r: Dispatcher)
        ensures
            r@ == idle(),
    {
        Dispatcher { pending: VecDeque::new(), running: None, stopped: false }
    }

    /// Queues a transition event (`true` to turn on, `false` to turn off).
    pub fn push(&mut self, event: bool)
        ensures
            final(self)@ == push_spec(old(self)@, event),
    {
        if !self.stopped {
            self.pending.push_back(event);
        }
    }

    /// The next event whose command the worker should run, if it may run one
    /// now; that event is then marked as running.
    pub fn next_command(&mut self) -> (r: Option<bool>)
        ensures
            (final(self)@, r) == next_spec(old(self)@),
    {
        if self.stopped || self.running.is_some() {
            return None;
        }
        match self.pending.pop_front() {
            Some(e) => {
                self.running = Some(e);
                Some(e)
            },
            None => None,
        }
    }

    /// Reports that the running command is over; `started` is false when it
    /// could not be started, which stops the worker.
    pub fn finish(&mut self, started: bool)
        ensures
            final(self)@ == finish_spec(old(self)@, started),
    {
        self.running = None;
        if !started {
            self.stopped = true;
            self.pending.clear();
        }
    }

    /// Whether the worker has stopped after a command failed to start.
    pub fn is_stopped(&self) -> (r: bool)
        ensures
            r == self@.stopped,
    {
        self.stopped
    }

    /// Number of events waiting.
    pub fn pending_len(&self) -> (r: usize)
        ensures
            r == self@.pending.len(),
    {
        self.pending.len()
    }
}

/// The two commands run on transitions.
pub struct CommandPair {
    pub cmd_on: String,
    pub cmd_off: String,
}

impl CommandPair {
    /// The command for an event: `cmd_on` for `true`, `cmd_off` for `false`.
    pub fn command(&self, event: bool) -> (r: &String)
        ensures
            r@ == if event { self.cmd_on@ } else { self.cmd_off@ },
    {
        if event {
            &self.cmd_on
        } else {
            &self.cmd_off
        }
    }
}

} // verus!
