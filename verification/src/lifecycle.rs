//! The lifecycle of the control loop: it runs until the window is closed or
//! a key is pressed, and never comes back from there.

use vstd::prelude::*;

verus! {

/// Whether the stimulus is being delivered or shut down.
#[derive(Clone, Copy, Debug, PartialEq, Eq, Structural)]
pub enum Lifecycle {
    Running,
    Terminating,
}

/// What the host's event source delivers to the control loop.
#[derive(Clone, Copy, Debug, PartialEq, Eq, Structural)]
pub enum Event {
    Resize,
    CloseRequested,
    KeyPressed,
    RedrawRequested,
}

/// What the control loop asks of the host in answer to an event.
#[derive(Clone, Copy, Debug, PartialEq, Eq, Structural)]
pub enum Command {
    /// Nothing to do but wait for the next event.
    Wait,
    /// Run one presentation cycle.
    Redraw,
    /// Release the audio stream and the surface, and leave the loop.
    Exit,
}

/// Whether the event ends the stimulus: a close request or any key press.
pub open spec fn ends_stimulus(event: Event) -> bool {
    event == Event::CloseRequested || event == Event::KeyPressed
}

/// The state after an event, and the command that answers it.
pub open spec fn step(state: Lifecycle, event: Event) -> (Lifecycle, Command) {
    match state {
        Lifecycle::Terminating => (Lifecycle::Terminating, Command::Wait),
        Lifecycle::Running => if ends_stimulus(event) {
            (Lifecycle::Terminating, Command::Exit)
        } else if event == Event::RedrawRequested {
            (Lifecycle::Running, Command::Redraw)
        } else {
            (Lifecycle::Running, Command::Wait)
        },
    }
}

/// The state after every event of `events` has been handled in turn.
pub open spec fn state_after(state: Lifecycle, events: Seq<Event>) -> Lifecycle
    decreases events.len(),
{
    if events.len() == 0 {
        state
    } else {
        state_after(step(state, events[0]).0, events.drop_first())
    }
}

/// The commands that answer the events of `events`, in order.
pub open spec fn commands(state: Lifecycle, events: Seq<Event>) -> Seq<Command>
    decreases events.len(),
{
    if events.len() == 0 {
        Seq::empty()
    } else {
        seq![step(state, events[0]).1] + commands(step(state, events[0]).0, events.drop_first())
    }
}

impl Lifecycle {
    /// The lifecycle of a stimulus that has just started.
    pub fn new() -> (state: Lifecycle)
        ensures
            state == Lifecycle::Running,
    {
        Lifecycle::Running
    }

    /// Whether events are still acted upon.
    pub fn is_running(&self) -> (running: bool)
        ensures
            running == (*self == Lifecycle::Running),
    {
        match self {
            Lifecycle::Running => true,
            Lifecycle::Terminating => false,
        }
    }

    /// Handles one event: moves to the next state and says what the host
    /// is to do.
    pub fn handle(&mut self, event: Event) -> (command: Command)
        ensures
            (*final(self), command) == step(*old(self), event),
    {
        match *self {
            Lifecycle::Terminating => Command::Wait,
            Lifecycle::Running => match event {
                Event::CloseRequested | Event::KeyPressed => {
                    *self = Lifecycle::Terminating;
                    Command::Exit
                },
                Event::RedrawRequested => Command::Redraw,
                Event::Resize => Command::Wait,
            },
        }
    }
}

/// Nothing happens once the stimulus is terminating: the state stays, and
/// every further event is answered by `Wait`.
pub proof fn lemma_terminating_is_final(events: Seq<Event>)
    ensures
        state_after(Lifecycle::Terminating, events) == Lifecycle::Terminating,
        commands(Lifecycle::Terminating, events).len() == events.len(),
        forall|i: int|
            0 <= i < events.len() ==> #[trigger] commands(Lifecycle::Terminating, events)[i]
                == Command::Wait,
    decreases events.len(),
{
    if events.len() > 0 {
        let rest = events.drop_first();
        lemma_terminating_is_final(rest);
        assert forall|i: int| 0 <= i < events.len() implies #[trigger] commands(
            Lifecycle::Terminating,
            events,
        )[i] == Command::Wait by {
            if i > 0 {
                assert(commands(Lifecycle::Terminating, events)[i] == commands(
                    Lifecycle::Terminating,
                    rest,
                )[i - 1]);
            }
        }
    }
}

/// A running stimulus answers `Exit` to the first close request or key
/// press and to no other event, so at most once; every event after that
/// one is answered by `Wait`, and the stimulus ends up terminating exactly
/// if such an event came.
pub proof fn lemma_exit_exactly_once(events: Seq<Event>)
    ensures
        commands(Lifecycle::Running, events).len() == events.len(),
        forall|i: int|
            0 <= i < events.len() ==> (#[trigger] commands(Lifecycle::Running, events)[i]
                == Command::Exit <==> ends_stimulus(events[i]) && forall|j: int|
                0 <= j < i ==> !ends_stimulus(#[trigger] events[j])),
        forall|i: int, j: int|
            #![trigger events[i], commands(Lifecycle::Running, events)[j]]
            0 <= i < j < events.len() && ends_stimulus(events[i]) ==> commands(
                Lifecycle::Running,
                events,
            )[j] == Command::Wait,
        state_after(Lifecycle::Running, events) == Lifecycle::Terminating <==> exists|i: int|
            0 <= i < events.len() && ends_stimulus(#[trigger] events[i]),
    decreases events.len(),
{
    if events.len() > 0 {
        let rest = events.drop_first();
        let all = commands(Lifecycle::Running, events);
        if ends_stimulus(events[0]) {
            lemma_terminating_is_final(rest);
            assert forall|i: int| 0 < i < events.len() implies #[trigger] all[i]
                == Command::Wait by {
                assert(all[i] == commands(Lifecycle::Terminating, rest)[i - 1]);
            }
        } else {
            lemma_exit_exactly_once(rest);
            let later = commands(Lifecycle::Running, rest);
            assert forall|i: int| 0 <= i < events.len() implies (#[trigger] all[i]
                == Command::Exit <==> ends_stimulus(events[i]) && forall|j: int|
                0 <= j < i ==> !ends_stimulus(#[trigger] events[j])) by {
                if i > 0 {
                    assert(all[i] == later[i - 1]);
                    assert(events[i] == rest[i - 1]);
                    if later[i - 1] == Command::Exit {
                        assert forall|j: int| 0 <= j < i implies !ends_stimulus(
                            #[trigger] events[j],
                        ) by {
                            if j > 0 {
                                assert(events[j] == rest[j - 1]);
                            }
                        }
                    } else if ends_stimulus(events[i]) {
                        let j = choose|j: int| 0 <= j < i - 1 && ends_stimulus(#[trigger] rest[j]);
                        assert(events[j + 1] == rest[j]);
                    }
                }
            }
            assert forall|i: int, j: int|
                #![trigger events[i], all[j]]
                0 <= i < j < events.len() && ends_stimulus(events[i]) implies all[j]
                == Command::Wait by {
                assert(all[j] == later[j - 1]);
                assert(events[i] == rest[i - 1]);
            }
            if state_after(Lifecycle::Running, events) == Lifecycle::Terminating {
                let i = choose|i: int| 0 <= i < rest.len() && ends_stimulus(#[trigger] rest[i]);
                assert(events[i + 1] == rest[i]);
            } else {
                assert forall|i: int| 0 <= i < events.len() implies !ends_stimulus(
                    #[trigger] events[i],
                ) by {
                    if i > 0 {
                        assert(events[i] == rest[i - 1]);
                    }
                }
            }
        }
    }
}

} // verus!
