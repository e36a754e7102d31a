use stimulus::lifecycle::{Command, Event, Lifecycle};

#[test]
fn lifecycle_starts_running() {
    let state = Lifecycle::new();
    assert_eq!(state, Lifecycle::Running);
    assert!(state.is_running());
}

#[test]
fn close_request_terminates() {
    let mut state = Lifecycle::new();
    assert_eq!(state.handle(Event::CloseRequested), Command::Exit);
    assert_eq!(state, Lifecycle::Terminating);
    assert!(!state.is_running());
}

#[test]
fn key_press_terminates() {
    let mut state = Lifecycle::new();
    assert_eq!(state.handle(Event::KeyPressed), Command::Exit);
    assert_eq!(state, Lifecycle::Terminating);
}

#[test]
fn redraw_request_keeps_running() {
    let mut state = Lifecycle::new();
    for _ in 0..5 {
        assert_eq!(state.handle(Event::RedrawRequested), Command::Redraw);
        assert_eq!(state, Lifecycle::Running);
    }
}

#[test]
fn resize_is_waited_out() {
    let mut state = Lifecycle::new();
    assert_eq!(state.handle(Event::Resize), Command::Wait);
    assert_eq!(state, Lifecycle::Running);
}

#[test]
fn nothing_happens_after_termination() {
    for last in [Event::CloseRequested, Event::KeyPressed] {
        let mut state = Lifecycle::new();
        assert_eq!(state.handle(last), Command::Exit);
        for event in [
            Event::RedrawRequested,
            Event::Resize,
            Event::KeyPressed,
            Event::CloseRequested,
        ] {
            assert_eq!(state.handle(event), Command::Wait);
            assert_eq!(state, Lifecycle::Terminating);
        }
    }
}

#[test]
fn exit_is_commanded_exactly_once() {
    let events = [
        Event::Resize,
        Event::RedrawRequested,
        Event::RedrawRequested,
        Event::KeyPressed,
        Event::RedrawRequested,
        Event::CloseRequested,
        Event::KeyPressed,
    ];
    let mut state = Lifecycle::new();
    let commands: Vec<Command> = events.iter().map(|&event| state.handle(event)).collect();
    assert_eq!(
        commands,
        vec![
            Command::Wait,
            Command::Redraw,
            Command::Redraw,
            Command::Exit,
            Command::Wait,
            Command::Wait,
            Command::Wait,
        ]
    );
    assert_eq!(
        commands.iter().filter(|&&command| command == Command::Exit).count(),
        1
    );
}
