//! What reaches the main event loop, and what it does about it.

use vstd::prelude::*;

use crate::model::PlayerEvent;

verus! {

/// Events that can be sent to and handled by the main event loop (the one drawing the TUI).
/// `Q` is what the queue sends to itself.
pub enum Event<Q> {
    Player(PlayerEvent),
    Queue(Q),
    SessionDied,
    IpcInput(String),
}

/// One thing that the event loop does.
pub enum Step<Q> {
    /// Tell the player what it is doing now.
    UpdateStatus(PlayerEvent),
    /// Tell whoever listens on the socket.
    Publish(PlayerEvent),
    /// Go on to the next item of the queue, as its end is reached and not by hand.
    Advance,
    /// Hand an event to the queue.
    HandleQueue(Q),
    /// Open a new session; quit if that fails.
    Reconnect,
    /// Run the commands that a text stands for, one after the other.
    RunCommands(String),
}

/// What an event leads to, in order.
pub open spec fn steps_of<Q>(event: Event<Q>, ipc: bool) -> Seq<Step<Q>> {
    match event {
        Event::Player(state) => seq![Step::UpdateStatus(state)] + (if ipc {
            seq![Step::Publish(state)]
        } else {
            Seq::empty()
        }) + (if state is FinishedTrack {
            seq![Step::Advance]
        } else {
            Seq::empty()
        }),
        Event::Queue(event) => seq![Step::HandleQueue(event)],
        Event::SessionDied => seq![Step::Reconnect],
        Event::IpcInput(input) => seq![Step::RunCommands(input)],
    }
}

/// What an event leads to, in order. `ipc` says whether there is a socket to publish on.
pub fn handle<Q>(event: Event<Q>, ipc: bool) -> (steps: Vec<Step<Q>>)
    ensures
        steps@ == steps_of(event, ipc),
{
    let mut steps: Vec<Step<Q>> = Vec::new();
    match event {
        Event::Player(state) => {
            steps.push(Step::UpdateStatus(state));
            if ipc {
                steps.push(Step::Publish(state));
            }
            match state {
                PlayerEvent::FinishedTrack => steps.push(Step::Advance),
                _ => {},
            }
        },
        Event::Queue(event) => steps.push(Step::HandleQueue(event)),
        Event::SessionDied => steps.push(Step::Reconnect),
        Event::IpcInput(input) => steps.push(Step::RunCommands(input)),
    }
    assert(steps@ =~= steps_of(event, ipc));
    steps
}

/// The queue moves on exactly when an item has finished, and only after the player has been
/// told.
pub proof fn law_only_a_finished_item_moves_the_queue<Q>(event: Event<Q>, ipc: bool)
    ensures
        (exists|i: int|
            0 <= i < steps_of(event, ipc).len() && #[trigger] steps_of(event, ipc)[i] is Advance)
            <==> event == Event::<Q>::Player(PlayerEvent::FinishedTrack),
        event is Player ==> steps_of(event, ipc)[0] == Step::<Q>::UpdateStatus(event->Player_0),
{
    let steps = steps_of(event, ipc);
    if event == Event::<Q>::Player(PlayerEvent::FinishedTrack) {
        assert(steps[steps.len() - 1] is Advance);
    }
}

/// What the player reports is passed on to whoever listens exactly where there is a socket,
/// after the player itself was told and before the queue moves on. Any other event is one
/// step, which carries along whatever came with the event.
pub proof fn law_events_are_passed_on<Q>(event: Event<Q>, ipc: bool)
    ensures
        ({
            let steps = steps_of(event, ipc);
            &&& event matches Event::Player(state) ==> {
                &&& steps[0] == Step::<Q>::UpdateStatus(state)
                &&& ipc ==> steps[1] == Step::<Q>::Publish(state)
                &&& state is FinishedTrack ==> steps.last() is Advance
                &&& steps.len() == 1 + (if ipc {
                    1int
                } else {
                    0
                }) + (if state is FinishedTrack {
                    1int
                } else {
                    0
                })
            }
            &&& event matches Event::Queue(inner) ==> steps.len() == 1 && steps[0]
                == Step::HandleQueue(inner)
            &&& event is SessionDied ==> steps.len() == 1 && steps[0] is Reconnect
            &&& event matches Event::IpcInput(input) ==> steps.len() == 1 && steps[0]
                == Step::<Q>::RunCommands(input)
        }),
{
}

} // verus!
