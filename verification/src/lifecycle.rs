//! The shutdown lifecycle: from serving, through draining, to the end.
//!
//! Two signals can ask for shutdown. The first one to arrive wins and the
//! listener stops accepting; any later signal changes nothing. Once the
//! requests in flight are done, the process ends with exit code 0.

use vstd::prelude::*;

verus! {

/// The exit code of a shutdown that ran to its end.
pub const EXIT_SUCCESS: i32 = 0;

/// Where the process stands.
#[derive(Clone, Copy, Debug, PartialEq, Eq, Structural)]
pub enum Phase {
    /// The listener accepts connections.
    Running,
    /// The listener accepts no more; requests in flight may finish.
    ShuttingDown,
    /// Nothing is in flight any more; the process ends.
    Terminated,
}

/// What can ask for shutdown.
#[derive(Clone, Copy, Debug, PartialEq, Eq, Structural)]
pub enum Signal {
    /// The interactive interrupt.
    Interrupt,
    /// The request to terminate the process.
    Terminate,
}

/// The signal that set shutdown off, if one did.
#[derive(Clone, Copy, Debug, PartialEq, Eq, Structural)]
pub enum Trigger {
    /// No signal has arrived.
    Unset,
    /// This signal arrived first.
    By(Signal),
}

/// What happens to the process.
#[derive(Clone, Copy, Debug, PartialEq, Eq, Structural)]
pub enum Event {
    /// A signal arrived.
    Signal(Signal),
    /// The last request in flight completed or was cut off.
    Drained,
}

/// What the runtime is to do after an event.
#[derive(Clone, Copy, Debug, PartialEq, Eq, Structural)]
pub enum Action {
    /// Go on as before.
    Continue,
    /// Close the listener to new connections and let requests in flight finish.
    StopAccepting,
    /// End the process with this exit code.
    Exit(i32),
}

/// The state of the lifecycle.
#[derive(Clone, Copy, Debug, PartialEq, Eq, Structural)]
pub struct Coordinator {
    pub phase: Phase,
    pub trigger: Trigger,
}

impl Phase {
    /// The position of the phase in the one order in which phases follow
    /// each other.
    pub open spec fn rank(self) -> int {
        match self {
            Phase::Running => 0,
            Phase::ShuttingDown => 1,
            Phase::Terminated => 2,
        }
    }
}

impl Coordinator {
    /// The state at start: running, with no signal seen.
    pub open spec fn initial() -> Coordinator {
        Coordinator { phase: Phase::Running, trigger: Trigger::Unset }
    }

    /// Whether the listener accepts connections in this state.
    pub open spec fn accepts(self) -> bool {
        self.phase is Running
    }

    /// Whether phase and trigger fit together: a trigger is recorded exactly
    /// once the process no longer runs.
    pub open spec fn consistent(self) -> bool {
        self.phase is Running <==> self.trigger is Unset
    }

    /// The state after `event`. The first signal moves a running process to
    /// shutdown and is recorded; the end of draining moves a process in
    /// shutdown to its end; every other event leaves the state as it is.
    pub open spec fn next(self, event: Event) -> Coordinator {
        match (self.phase, event) {
            (Phase::Running, Event::Signal(signal)) => Coordinator {
                phase: Phase::ShuttingDown,
                trigger: Trigger::By(signal),
            },
            (Phase::ShuttingDown, Event::Drained) => Coordinator {
                phase: Phase::Terminated,
                trigger: self.trigger,
            },
            _ => self,
        }
    }

    /// What the runtime is to do when `event` occurs in this state.
    pub open spec fn action_for(self, event: Event) -> Action {
        match (self.phase, event) {
            (Phase::Running, Event::Signal(_)) => Action::StopAccepting,
            (Phase::ShuttingDown, Event::Drained) => Action::Exit(EXIT_SUCCESS),
            _ => Action::Continue,
        }
    }

    /// The state after a sequence of events, taken in order.
    pub open spec fn run(self, events: Seq<Event>) -> Coordinator
        decreases events.len(),
    {
        if events.len() == 0 {
            self
        } else {
            self.run(events.drop_last()).next(events.last())
        }
    }

    /// Creates the state at start.
    pub fn new() -> (c: Coordinator)
        ensures
            c == Coordinator::initial(),
    {
        Coordinator { phase: Phase::Running, trigger: Trigger::Unset }
    }

    /// Whether the listener accepts connections in this state.
    pub fn is_accepting(&self) -> (b: bool)
        ensures
            b == self.accepts(),
    {
        match self.phase {
            Phase::Running => true,
            _ => false,
        }
    }

    /// Takes one event: returns the state after it and what the runtime is
    /// to do.
    pub fn step(self, event: Event) -> (r: (Coordinator, Action))
        ensures
            r.0 == self.next(event),
            r.1 == self.action_for(event),
    {
        match (self.phase, event) {
            (Phase::Running, Event::Signal(signal)) => (
                Coordinator { phase: Phase::ShuttingDown, trigger: Trigger::By(signal) },
                Action::StopAccepting,
            ),
            (Phase::ShuttingDown, Event::Drained) => (
                Coordinator { phase: Phase::Terminated, trigger: self.trigger },
                Action::Exit(EXIT_SUCCESS),
            ),
            _ => (self, Action::Continue),
        }
    }
}

/// The action that the event at position `k` of a history calls for, the
/// history starting from the initial state.
pub open spec fn action_at(events: Seq<Event>, k: int) -> Action {
    Coordinator::initial().run(events.take(k)).action_for(events[k])
}

/// A second signal changes nothing: after one signal, another one, of either
/// kind, leaves the state as the first left it and calls for no action.
pub proof fn lemma_repeated_signal_changes_nothing(c: Coordinator, first: Signal, second: Signal)
    ensures
        c.next(Event::Signal(first)).next(Event::Signal(second)) == c.next(Event::Signal(first)),
        c.next(Event::Signal(first)).action_for(Event::Signal(second)) == Action::Continue,
{
}

/// A signal to a running process stops the listener at once, and the end of
/// draining then ends the process with exit code 0.
pub proof fn lemma_signal_then_drain_exits_cleanly(signal: Signal)
    ensures
        Coordinator::initial().action_for(Event::Signal(signal)) == Action::StopAccepting,
        !Coordinator::initial().next(Event::Signal(signal)).accepts(),
        Coordinator::initial().next(Event::Signal(signal)).phase == Phase::ShuttingDown,
        Coordinator::initial().next(Event::Signal(signal)).action_for(Event::Drained)
            == Action::Exit(EXIT_SUCCESS),
        Coordinator::initial().next(Event::Signal(signal)).next(Event::Drained).phase
            == Phase::Terminated,
{
}

/// No event takes the process back to an earlier phase or more than one
/// phase ahead. A consistent state stays consistent, and its trigger, once
/// recorded, stays as it is.
pub proof fn lemma_step_keeps_order(c: Coordinator, event: Event)
    ensures
        c.phase.rank() <= c.next(event).phase.rank() <= c.phase.rank() + 1,
        c.consistent() ==> c.next(event).consistent(),
        c.consistent() && c.trigger is By ==> c.next(event).trigger == c.trigger,
{
}

/// Over any sequence of events the phase never goes back. A consistent state
/// stays consistent, and its trigger, once recorded, stays as it is.
pub proof fn lemma_run_keeps_order(c: Coordinator, events: Seq<Event>)
    ensures
        c.phase.rank() <= c.run(events).phase.rank(),
        c.consistent() ==> c.run(events).consistent(),
        c.consistent() && c.trigger is By ==> c.run(events).trigger == c.trigger,
    decreases events.len(),
{
    if events.len() > 0 {
        lemma_run_keeps_order(c, events.drop_last());
        lemma_step_keeps_order(c.run(events.drop_last()), events.last());
    }
}

/// A longer history has gone at least as far as each of its beginnings.
pub proof fn lemma_history_advances(events: Seq<Event>, j: int, k: int)
    requires
        0 <= j <= k <= events.len(),
    ensures
        Coordinator::initial().run(events.take(j)).phase.rank() <= Coordinator::initial().run(
            events.take(k),
        ).phase.rank(),
    decreases k - j,
{
    if j < k {
        lemma_history_advances(events, j, k - 1);
        assert(events.take(k).drop_last() == events.take(k - 1));
        lemma_step_keeps_order(
            Coordinator::initial().run(events.take(k - 1)),
            events.take(k).last(),
        );
    }
}

/// In every history the listener is stopped at most once and the process is
/// ended at most once.
pub proof fn lemma_stop_and_exit_happen_once(events: Seq<Event>, j: int, k: int)
    requires
        0 <= j < events.len(),
        0 <= k < events.len(),
        j != k,
    ensures
        !(action_at(events, j) == Action::StopAccepting && action_at(events, k)
            == Action::StopAccepting),
        !(action_at(events, j) is Exit && action_at(events, k) is Exit),
{
    let (a, b) = if j < k {
        (j, k)
    } else {
        (k, j)
    };
    assert(events.take(a + 1).drop_last() == events.take(a));
    assert(events.take(a + 1).last() == events[a]);
    lemma_history_advances(events, a + 1, b);
}

/// In every history the process is ended only after the listener was stopped.
pub proof fn lemma_exit_follows_stop(events: Seq<Event>, k: int)
    requires
        0 <= k < events.len(),
        action_at(events, k) is Exit,
    ensures
        exists|j: int| 0 <= j < k && action_at(events, j) == Action::StopAccepting,
{
    lemma_left_running_by_stop(events, k);
}

/// A history that has left the running phase holds the event that stopped
/// the listener.
proof fn lemma_left_running_by_stop(events: Seq<Event>, k: int)
    requires
        0 <= k <= events.len(),
        !Coordinator::initial().run(events.take(k)).accepts(),
    ensures
        exists|j: int| 0 <= j < k && action_at(events, j) == Action::StopAccepting,
    decreases k,
{
    if k > 0 {
        assert(events.take(k).drop_last() == events.take(k - 1));
        assert(events.take(k).last() == events[k - 1]);
        let before = Coordinator::initial().run(events.take(k - 1));
        if before.accepts() {
            assert(action_at(events, k - 1) == Action::StopAccepting);
        } else {
            lemma_left_running_by_stop(events, k - 1);
            let j = choose|j: int| 0 <= j < k - 1 && action_at(events, j) == Action::StopAccepting;
            assert(0 <= j < k && action_at(events, j) == Action::StopAccepting);
        }
    }
}

/// Every state that a history reaches from the initial state is consistent,
/// and it is terminated only if a signal was recorded.
pub proof fn lemma_reached_states_consistent(events: Seq<Event>)
    ensures
        Coordinator::initial().run(events).consistent(),
        Coordinator::initial().run(events).phase is Terminated ==> Coordinator::initial().run(
            events,
        ).trigger is By,
{
    lemma_run_keeps_order(Coordinator::initial(), events);
}

} // verus!
