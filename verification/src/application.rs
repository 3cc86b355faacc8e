//! Bringing the program up: how long each part takes, what was playing, and which screen
//! comes first.

use vstd::prelude::*;

use crate::text;

verus! {

/// When the process started, for reporting how long each part of startup took.
pub struct StartupClock {
    /// In nanoseconds, once the clock has been started.
    pub began: Option<u128>,
}

impl StartupClock {
    /// A clock that has not been started.
    pub fn new() -> (clock: Self)
        ensures
            clock.began is None,
    {
        StartupClock { began: None }
    }
}

/// When a clock that is looked at at `now` was started: now, if it was not started before.
pub open spec fn start_of(began: Option<u128>, now: u128) -> u128 {
    match began {
        Some(began) => began,
        None => now,
    }
}

/// What is reported of a stage of startup.
pub open spec fn phase_message(phase: Seq<char>, elapsed: nat) -> Seq<char> {
    "startup: "@ + phase + " at "@ + text::digits(elapsed / 1_000_000) + "ms"@
}

/// Start the startup clock, as early in the program as possible. A clock that runs already
/// is left alone.
pub fn begin_startup_clock(clock: &mut StartupClock, now: u128)
    ensures
        final(clock).began == Some(start_of(old(clock).began, now)),
{
    if clock.began.is_none() {
        clock.began = Some(now);
    }
}

/// Note that a stage of startup has finished, with the time since the process began. This
/// is the first thing to look at when startup feels slow.
pub fn mark_startup_phase(clock: &mut StartupClock, phase: &str, now: u128) -> (message: String)
    ensures
        final(clock).began == Some(start_of(old(clock).began, now)),
        message@ == phase_message(
            phase@,
            if now >= start_of(old(clock).began, now) {
                (now - start_of(old(clock).began, now)) as nat
            } else {
                0
            },
        ),
{
    begin_startup_clock(clock, now);
    let began = match clock.began {
        Some(began) => began,
        None => now,
    };
    let elapsed: u128 = now.saturating_sub(began);
    let mut message = "startup: ".to_owned();
    message.append(phase);
    message.append(" at ");
    message.append(&text::decimal(elapsed / 1_000_000));
    message.append("ms");
    message
}

/// The stages of bringing the program up, in the order in which they are gone through.
/// Whatever may end the program, or has to be answered on the plain terminal, comes before
/// the terminal is taken over: later its message would not be seen.
#[derive(Clone, Copy, PartialEq, Eq, Structural, Debug)]
pub enum Stage {
    Runtime,
    Configuration,
    Credentials,
    Session,
    Terminal,
    Library,
    Playback,
    Commands,
    Screens,
    Views,
    FirstFrame,
    /// Nothing is left to be brought up.
    Running,
}

impl Stage {
    /// How many stages come before this one.
    pub open spec fn rank(self) -> nat {
        match self {
            Stage::Runtime => 0,
            Stage::Configuration => 1,
            Stage::Credentials => 2,
            Stage::Session => 3,
            Stage::Terminal => 4,
            Stage::Library => 5,
            Stage::Playback => 6,
            Stage::Commands => 7,
            Stage::Screens => 8,
            Stage::Views => 9,
            Stage::FirstFrame => 10,
            Stage::Running => 11,
        }
    }

    /// The stage that comes after this one.
    pub open spec fn next(self) -> Stage {
        match self {
            Stage::Runtime => Stage::Configuration,
            Stage::Configuration => Stage::Credentials,
            Stage::Credentials => Stage::Session,
            Stage::Session => Stage::Terminal,
            Stage::Terminal => Stage::Library,
            Stage::Library => Stage::Playback,
            Stage::Playback => Stage::Commands,
            Stage::Commands => Stage::Screens,
            Stage::Screens => Stage::Views,
            Stage::Views => Stage::FirstFrame,
            Stage::FirstFrame => Stage::Running,
            Stage::Running => Stage::Running,
        }
    }

    /// What is reported once the stage is over. There is nothing to report of a program
    /// that runs.
    pub open spec fn report(self) -> Option<Seq<char>> {
        match self {
            Stage::Runtime => Some("runtime ready"@),
            Stage::Configuration => Some("configuration read"@),
            Stage::Credentials => Some("credentials ready"@),
            Stage::Session => Some("spotify session open"@),
            Stage::Terminal => Some("terminal ready"@),
            Stage::Library => Some("library created"@),
            Stage::Playback => Some("playback restored"@),
            Stage::Commands => Some("commands registered"@),
            Stage::Screens => Some("screens constructed"@),
            Stage::Views => Some("views built"@),
            Stage::FirstFrame => Some("first frame drawn"@),
            Stage::Running => None,
        }
    }
}

/// How a stage ended. `E` is why it could not be gone through.
pub enum Ending<E> {
    Done,
    /// The session was refused, as opposed to one that could not be opened at all.
    Refused(String),
    Failed(E),
}

/// What comes after a stage.
pub enum Course<E> {
    /// Report this, and go on with that stage.
    Enter(&'static str, Stage),
    /// Offer a fresh login for this reason, and try again.
    Login(String),
    /// Give up.
    Abort(E),
    /// Go on running.
    Run,
}

/// What comes after a stage that ended in some way. Only a session can be refused.
pub fn after<E>(stage: Stage, ending: Ending<E>) -> (course: Course<E>)
    requires
        ending is Refused ==> stage == Stage::Session,
    ensures
        match ending {
            Ending::Done => match stage.report() {
                Some(report) => {
                    &&& course is Enter
                    &&& course->Enter_0@ == report
                    &&& course->Enter_1 == stage.next()
                },
                None => course is Run,
            },
            Ending::Refused(reason) => course == Course::<E>::Login(reason),
            Ending::Failed(error) => course == Course::Abort(error),
        },
{
    match ending {
        Ending::Refused(reason) => Course::Login(reason),
        Ending::Failed(error) => Course::Abort(error),
        Ending::Done => match stage {
            Stage::Runtime => Course::Enter("runtime ready", Stage::Configuration),
            Stage::Configuration => Course::Enter("configuration read", Stage::Credentials),
            Stage::Credentials => Course::Enter("credentials ready", Stage::Session),
            Stage::Session => Course::Enter("spotify session open", Stage::Terminal),
            Stage::Terminal => Course::Enter("terminal ready", Stage::Library),
            Stage::Library => Course::Enter("library created", Stage::Playback),
            Stage::Playback => Course::Enter("playback restored", Stage::Commands),
            Stage::Commands => Course::Enter("commands registered", Stage::Screens),
            Stage::Screens => Course::Enter("screens constructed", Stage::Views),
            Stage::Views => Course::Enter("views built", Stage::FirstFrame),
            Stage::FirstFrame => Course::Enter("first frame drawn", Stage::Running),
            Stage::Running => Course::Run,
        },
    }
}

/// What the player was doing when the program was left.
#[derive(Clone, Copy, PartialEq, Eq, Structural, Debug)]
pub enum PlaybackState {
    Playing,
    Paused,
    Stopped,
    Default,
}

/// What is done with the item that was playing.
#[derive(Clone, Copy, PartialEq, Eq, Structural, Debug)]
pub struct Restore {
    /// Whether it is loaded to be played.
    pub play: bool,
    /// Where it is loaded, in milliseconds.
    pub position: u32,
    /// Whether it is stopped afterwards, rather than paused.
    pub stop: bool,
}

/// How to load the last played item into the player. Of the position only as much counts as
/// the player can be told.
pub fn restore(state: PlaybackState, progress_ms: u128) -> (plan: Restore)
    ensures
        plan.play == (state == PlaybackState::Playing),
        plan.position == progress_ms % 0x1_0000_0000,
        plan.stop == (state == PlaybackState::Stopped),
        !(plan.play && plan.stop),
        !plan.play && !plan.stop <==> state == PlaybackState::Paused || state
            == PlaybackState::Default,
        progress_ms <= u32::MAX ==> plan.position == progress_ms,
{
    let (play, stop) = match state {
        PlaybackState::Playing => (true, false),
        PlaybackState::Stopped => (false, true),
        PlaybackState::Paused | PlaybackState::Default => (false, false),
    };
    Restore { play, position: (progress_ms % 0x1_0000_0000) as u32, stop }
}

/// The screen that is wanted first.
pub open spec fn wanted_screen(setting: Option<String>) -> Seq<char> {
    match setting {
        Some(name) => name@,
        None => "library"@,
    }
}

/// The first screen, and whether the wanted one could be shown.
pub fn initial_screen(setting: &Option<String>, screens: &Vec<String>) -> (screen: (
    String,
    bool,
))
    ensures
        screen.1 == text::texts(screens@).contains(wanted_screen(*setting)),
        screen.0@ == (if screen.1 {
            wanted_screen(*setting)
        } else {
            "library"@
        }),
        *setting is None ==> screen.0@ == "library"@,
        *setting matches Some(name) ==> text::texts(screens@).contains(name@) ==> screen.0@
            == name@,
        screen.0@ == "library"@ || text::texts(screens@).contains(screen.0@),
{
    let wanted = match setting {
        Some(name) => name.clone(),
        None => "library".to_owned(),
    };
    for i in 0..screens.len()
        invariant
            wanted@ == wanted_screen(*setting),
            forall|j: int| 0 <= j < i ==> (#[trigger] text::texts(screens@)[j]) != wanted@,
    {
        if text::same(&screens[i], &wanted) {
            assert(text::texts(screens@)[i as int] == wanted@);
            return (wanted, true);
        }
    }
    ("library".to_owned(), false)
}

/// Every stage leads further, and no stage that can be refused comes back once the terminal
/// is taken over: whoever has to log in again is asked while the question can be seen.
pub proof fn law_logins_come_before_the_terminal(stage: Stage)
    ensures
        stage != Stage::Running ==> stage.next().rank() == stage.rank() + 1,
        stage.rank() >= Stage::Terminal.rank() ==> stage != Stage::Session && stage.next().rank()
            >= Stage::Terminal.rank(),
{
}

/// The clock keeps the moment at which it was first started, however often it is started or
/// looked at.
pub proof fn law_the_clock_starts_once(began: Option<u128>, first: u128, later: u128)
    ensures
        start_of(Some(start_of(began, first)), later) == start_of(began, first),
{
}

/// What is reported of a stage names it, and ends with how long it took in milliseconds,
/// rounded down.
pub proof fn law_a_report_says_how_long_it_took(phase: Seq<char>, elapsed: nat)
    ensures
        ({
            let message = phase_message(phase, elapsed);
            let took = text::digits(elapsed / 1_000_000);
            let rest = message.skip(9 + phase.len() as int + 4);
            &&& message.take(7) == seq!['s', 't', 'a', 'r', 't', 'u', 'p']
            &&& message.subrange(9, 9 + phase.len() as int) == phase
            &&& rest == took + seq!['m', 's']
            &&& 1_000_000 * text::number_of(rest.take(took.len() as int)) <= elapsed < 1_000_000 * (
            text::number_of(rest.take(took.len() as int)) + 1)
        }),
{
    let message = phase_message(phase, elapsed);
    let took = text::digits(elapsed / 1_000_000);
    let rest = message.skip(9 + phase.len() as int + 4);
    reveal_strlit("startup: ");
    reveal_strlit(" at ");
    reveal_strlit("ms");
    text::law_a_number_reads_back(elapsed / 1_000_000);
    assert(message.take(7) =~= seq!['s', 't', 'a', 'r', 't', 'u', 'p']);
    assert(message.subrange(9, 9 + phase.len() as int) =~= phase);
    assert(rest =~= took + seq!['m', 's']);
    assert(rest.take(took.len() as int) =~= took);
}

/// From the first stage on, every stage is gone through, in an order that has each thing
/// ready before it is needed: the configuration is read before the credentials are asked
/// for, those before the session is opened, that before the terminal is taken over, and only
/// on the terminal are the library, playback, commands, screens and views brought up, until
/// the first frame is drawn.
pub proof fn law_every_stage_has_its_turn(stage: Stage, other: Stage)
    ensures
        Stage::Runtime.rank() == 0,
        stage.rank() == other.rank() <==> stage == other,
        Stage::Runtime.rank() < Stage::Configuration.rank() < Stage::Credentials.rank()
            < Stage::Session.rank() < Stage::Terminal.rank() < Stage::Library.rank()
            < Stage::Playback.rank() < Stage::Commands.rank() < Stage::Screens.rank()
            < Stage::Views.rank() < Stage::FirstFrame.rank() < Stage::Running.rank(),
        stage != Stage::Running ==> stage.next().rank() == stage.rank() + 1,
        stage.report() is None <==> stage == Stage::Running,
{
}

/// No two stages are reported in the same words.
pub proof fn law_reports_are_told_apart(stage: Stage, other: Stage)
    requires
        stage != other,
    ensures
        stage.report() != other.report(),
{
    lemma_openings_of_reports(stage);
    lemma_openings_of_reports(other);
}

/// The length and the first letter of each report.
proof fn lemma_openings_of_reports(stage: Stage)
    ensures
        stage.report() matches Some(report) ==> report.len() > 0 && (report.len(), report[0]) == (
        match stage {
            Stage::Runtime => (13nat, 'r'),
            Stage::Configuration => (18nat, 'c'),
            Stage::Credentials => (17nat, 'c'),
            Stage::Session => (20nat, 's'),
            Stage::Terminal => (14nat, 't'),
            Stage::Library => (15nat, 'l'),
            Stage::Playback => (17nat, 'p'),
            Stage::Commands => (19nat, 'c'),
            Stage::Screens => (19nat, 's'),
            Stage::Views => (11nat, 'v'),
            Stage::FirstFrame => (17nat, 'f'),
            Stage::Running => (0nat, ' '),
        }),
{
    reveal_strlit("runtime ready");
    reveal_strlit("configuration read");
    reveal_strlit("credentials ready");
    reveal_strlit("spotify session open");
    reveal_strlit("terminal ready");
    reveal_strlit("library created");
    reveal_strlit("playback restored");
    reveal_strlit("commands registered");
    reveal_strlit("screens constructed");
    reveal_strlit("views built");
    reveal_strlit("first frame drawn");
}

} // verus!
