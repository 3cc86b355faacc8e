use ncspot::application::{
    after, begin_startup_clock, initial_screen, mark_startup_phase, restore, Course, Ending,
    PlaybackState, Restore, Stage, StartupClock,
};
use ncspot::events::{handle, Event, Step};
use ncspot::model::PlayerEvent;

#[test]
fn a_stage_of_startup_is_reported_with_its_time() {
    let mut clock = StartupClock::new();
    begin_startup_clock(&mut clock, 5_000_000);
    begin_startup_clock(&mut clock, 9_000_000);
    assert_eq!(clock.began, Some(5_000_000));
    let message = mark_startup_phase(&mut clock, "runtime ready", 128_999_999);
    assert_eq!(message, "startup: runtime ready at 123ms");
    // Looking at a clock starts it.
    let mut clock = StartupClock::new();
    assert_eq!(mark_startup_phase(&mut clock, "x", 7), "startup: x at 0ms");
    assert_eq!(clock.began, Some(7));
}

#[test]
fn what_was_playing_is_restored() {
    let plan = |state: PlaybackState| restore(state, 62_000);
    let position = 62_000;
    assert_eq!(plan(PlaybackState::Playing), Restore { play: true, position, stop: false });
    assert_eq!(plan(PlaybackState::Paused), Restore { play: false, position, stop: false });
    assert_eq!(plan(PlaybackState::Default), Restore { play: false, position, stop: false });
    assert_eq!(plan(PlaybackState::Stopped), Restore { play: false, position, stop: true });
    assert_eq!(restore(PlaybackState::Paused, 0x1_0000_0005).position, 5);
}

#[test]
fn the_library_is_the_first_screen_unless_another_is_wanted() {
    let screens: Vec<String> =
        ["search", "library", "queue", "playing"].iter().map(|name| name.to_string()).collect();
    let first = |setting: Option<&str>| {
        initial_screen(&setting.map(str::to_string), &screens)
    };
    assert_eq!(first(None), ("library".to_string(), true));
    assert_eq!(first(Some("queue")), ("queue".to_string(), true));
    assert_eq!(first(Some("nowhere")), ("library".to_string(), false));
}

fn names(steps: Vec<Step<u8>>) -> Vec<String> {
    steps
        .into_iter()
        .map(|step| match step {
            Step::UpdateStatus(state) => format!("update {state:?}"),
            Step::Publish(state) => format!("publish {state:?}"),
            Step::Advance => "advance".to_string(),
            Step::HandleQueue(event) => format!("queue {event}"),
            Step::Reconnect => "reconnect".to_string(),
            Step::RunCommands(input) => format!("run {input}"),
        })
        .collect()
}

#[test]
fn an_event_is_answered_step_by_step() {
    let finished = PlayerEvent::FinishedTrack;
    assert_eq!(
        names(handle(Event::Player(finished), true)),
        ["update FinishedTrack", "publish FinishedTrack", "advance"]
    );
    assert_eq!(names(handle(Event::Player(PlayerEvent::Stopped), false)), ["update Stopped"]);
    assert_eq!(names(handle(Event::Queue(7), true)), ["queue 7"]);
    assert_eq!(names(handle(Event::SessionDied, true)), ["reconnect"]);
    let input = Event::IpcInput("play".to_string());
    assert_eq!(names(handle(input, false)), ["run play"]);
}

#[test]
fn the_program_comes_up_stage_by_stage() {
    let mut stage = Stage::Runtime;
    let mut reports = Vec::new();
    while let Course::Enter(report, next) = after::<()>(stage, Ending::Done) {
        reports.push(report);
        stage = next;
    }
    assert_eq!(stage, Stage::Running);
    assert_eq!(
        reports,
        [
            "runtime ready",
            "configuration read",
            "credentials ready",
            "spotify session open",
            "terminal ready",
            "library created",
            "playback restored",
            "commands registered",
            "screens constructed",
            "views built",
            "first frame drawn",
        ]
    );
}

#[test]
fn a_refused_session_is_answered_by_a_login() {
    let refused = after::<()>(Stage::Session, Ending::Refused("bad password".to_string()));
    assert!(matches!(refused, Course::Login(reason) if reason == "bad password"));
    assert!(matches!(after(Stage::Session, Ending::Failed(7)), Course::Abort(7)));
    assert!(matches!(after(Stage::Terminal, Ending::Failed(8)), Course::Abort(8)));
    assert!(matches!(after::<()>(Stage::Running, Ending::Done), Course::Run));
}
