use sensor_gateway::lifecycle::{
    Action, Coordinator, Event, Phase, Signal, Trigger, EXIT_SUCCESS,
};

fn run(start: Coordinator, events: &[Event]) -> (Coordinator, Vec<Action>) {
    let mut state = start;
    let mut actions = Vec::new();
    for event in events {
        let (next, action) = state.step(*event);
        state = next;
        actions.push(action);
    }
    (state, actions)
}

#[test]
fn the_process_starts_running() {
    let c = Coordinator::new();
    assert_eq!(c.phase, Phase::Running);
    assert_eq!(c.trigger, Trigger::Unset);
    assert!(c.is_accepting());
}

#[test]
fn an_interrupt_with_a_request_in_flight_drains_and_exits_with_zero() {
    let c = Coordinator::new();
    let (c, action) = c.step(Event::Signal(Signal::Interrupt));
    assert_eq!(action, Action::StopAccepting);
    assert_eq!(c.phase, Phase::ShuttingDown);
    assert_eq!(c.trigger, Trigger::By(Signal::Interrupt));
    assert!(!c.is_accepting());
    let (c, action) = c.step(Event::Drained);
    assert_eq!(action, Action::Exit(0));
    assert_eq!(c.phase, Phase::Terminated);
    assert_eq!(c.trigger, Trigger::By(Signal::Interrupt));
    assert!(!c.is_accepting());
    assert_eq!(EXIT_SUCCESS, 0);
}

#[test]
fn a_terminate_signal_shuts_down_as_an_interrupt_does() {
    let (c, actions) = run(
        Coordinator::new(),
        &[Event::Signal(Signal::Terminate), Event::Drained],
    );
    assert_eq!(actions, vec![Action::StopAccepting, Action::Exit(0)]);
    assert_eq!(c.phase, Phase::Terminated);
    assert_eq!(c.trigger, Trigger::By(Signal::Terminate));
}

#[test]
fn a_second_interrupt_changes_nothing() {
    let (once, _) = run(Coordinator::new(), &[Event::Signal(Signal::Interrupt)]);
    let (twice, actions) = run(
        Coordinator::new(),
        &[Event::Signal(Signal::Interrupt), Event::Signal(Signal::Interrupt)],
    );
    assert_eq!(once, twice);
    assert_eq!(actions, vec![Action::StopAccepting, Action::Continue]);
    let (end_once, _) = run(once, &[Event::Drained]);
    let (end_twice, _) = run(twice, &[Event::Drained]);
    assert_eq!(end_once, end_twice);
}

#[test]
fn the_first_signal_wins_the_race() {
    let (c, actions) = run(
        Coordinator::new(),
        &[Event::Signal(Signal::Terminate), Event::Signal(Signal::Interrupt)],
    );
    assert_eq!(c.phase, Phase::ShuttingDown);
    assert_eq!(c.trigger, Trigger::By(Signal::Terminate));
    assert_eq!(actions, vec![Action::StopAccepting, Action::Continue]);
    let (c, actions) = run(
        Coordinator::new(),
        &[Event::Signal(Signal::Interrupt), Event::Signal(Signal::Terminate)],
    );
    assert_eq!(c.phase, Phase::ShuttingDown);
    assert_eq!(c.trigger, Trigger::By(Signal::Interrupt));
    assert_eq!(actions, vec![Action::StopAccepting, Action::Continue]);
}

#[test]
fn a_running_process_without_requests_goes_on() {
    let (c, actions) = run(Coordinator::new(), &[Event::Drained, Event::Drained]);
    assert_eq!(c, Coordinator::new());
    assert_eq!(actions, vec![Action::Continue, Action::Continue]);
    assert!(c.is_accepting());
}

#[test]
fn a_terminated_process_takes_no_more_events() {
    let (end, _) = run(
        Coordinator::new(),
        &[Event::Signal(Signal::Interrupt), Event::Drained],
    );
    for event in [
        Event::Signal(Signal::Interrupt),
        Event::Signal(Signal::Terminate),
        Event::Drained,
    ] {
        let (after, action) = end.step(event);
        assert_eq!(after, end);
        assert_eq!(action, Action::Continue);
    }
}

#[test]
fn the_listener_is_stopped_once_and_the_process_ended_once() {
    let events = [
        Event::Drained,
        Event::Signal(Signal::Interrupt),
        Event::Signal(Signal::Terminate),
        Event::Signal(Signal::Interrupt),
        Event::Drained,
        Event::Drained,
        Event::Signal(Signal::Terminate),
    ];
    let (c, actions) = run(Coordinator::new(), &events);
    assert_eq!(c.phase, Phase::Terminated);
    assert_eq!(
        actions,
        vec![
            Action::Continue,
            Action::StopAccepting,
            Action::Continue,
            Action::Continue,
            Action::Exit(0),
            Action::Continue,
            Action::Continue,
        ]
    );
}
