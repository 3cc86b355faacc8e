//! The two lines at the bottom of the screen: a progress bar, and below it what is playing
//! and how.

use vstd::prelude::*;

use crate::canvas;
use crate::canvas::{Align, Ink, Sheet, Vec2};
#[allow(unused_imports)]
use crate::canvas::Mark;
use crate::model::{Playable, PlayerEvent, RepeatSetting, VOLUME_PERCENT};
#[allow(unused_imports)]
use crate::model::PlayableModel;
use crate::text;
use crate::ui::anim;
use crate::ui::controls;
use crate::ui::input::{Input, Mouse};
use crate::ui::meters;
use crate::ui::spectrum;

verus! {

/// Frames per second the statusbar animates at. Deliberately slower than the now playing
/// card: this line is on screen whatever else you are doing, so it should cost as little as
/// a moving thing can.
pub const STATUSBAR_FPS: u32 = 12;
/// Bands in the little equalizer that stands in for the play icon.
pub const EQUALIZER_BANDS: usize = 3;
/// How far one notch of the wheel over the bar moves, in milliseconds.
pub const BAR_SEEK_MS: i32 = 500;

/// What the statusbar shows.
pub struct Readout {
    pub status: PlayerEvent,
    /// How far into the current item the player is, in nanoseconds.
    pub progress: u128,
    /// Out of `u16::MAX`.
    pub volume: u16,
    pub repeat: RepeatSetting,
    pub shuffle: bool,
    pub current: Option<Playable>,
    /// The current item as the user wants it named.
    pub line: String,
    /// Whether the library is being updated.
    pub updating: bool,
    pub nerdfont: bool,
    /// Whether the indicator shows what a click does rather than what is going on.
    pub flipped: bool,
    /// The setting of `visualizer_fps`.
    pub fps: Option<u32>,
    /// The level of each band of the equalizer in eighths, where there is audio to draw one
    /// from.
    pub bands: Option<Vec<usize>>,
}

/// The setting for the frames per second, or what it is by default.
pub open spec fn fps_setting(fps: Option<u32>) -> u32 {
    match fps {
        Some(fps) => fps,
        None => anim::DEFAULT_FPS,
    }
}

/// The frames per second that the statusbar animates at.
pub fn statusbar_fps(fps: Option<u32>) -> (rate: u32)
    ensures
        rate == vstd::math::min(fps_setting(fps) as int, STATUSBAR_FPS as int),
        rate <= 12,
        fps matches Some(fps) ==> rate <= fps && (fps <= 12 ==> rate == fps),
        fps is None || fps->0 > 12 ==> rate == 12,
{
    let setting: u32 = match fps {
        Some(fps) => fps,
        None => anim::DEFAULT_FPS,
    };
    if setting < STATUSBAR_FPS {
        setting
    } else {
        STATUSBAR_FPS
    }
}

/// Whether the moving parts of the statusbar are wanted at all.
pub fn animated(fps: Option<u32>) -> (wanted: bool)
    ensures
        wanted == (fps_setting(fps) > 0),
        wanted <==> fps != Some(0u32),
{
    match fps {
        Some(fps) => fps > 0,
        None => true,
    }
}

/// A level in eighths, as it is drawn: never nothing, never more than a cell.
pub open spec fn shown_level(level: usize) -> nat {
    if level < 1 {
        1
    } else if level > 8 {
        8
    } else {
        level as nat
    }
}

/// The bars of an equalizer.
pub open spec fn equalizer_bars(bands: Seq<usize>) -> Seq<char> {
    bands.map_values(|level: usize| spectrum::block_glyph(shown_level(level)))
}

/// A tiny equalizer to stand in for the play icon, or `None` when there is no audio to draw
/// one from and the icon should be shown instead.
pub open spec fn equalizer_of(readout: Readout) -> Option<Seq<char>> {
    match readout.bands {
        Some(bands) if fps_setting(readout.fps) > 0 && readout.status is Playing => Some(
            equalizer_bars(bands@),
        ),
        _ => None,
    }
}

/// A tiny equalizer to stand in for the play icon, or `None` when there is no audio to draw
/// one from and the icon should be shown instead.
pub fn equalizer(readout: &Readout) -> (bars: Option<String>)
    ensures
        crate::model::optional_text(bars) == equalizer_of(*readout),
{
    if !animated(readout.fps) || !readout.status.is_playing() {
        return None;
    }
    match &readout.bands {
        None => None,
        Some(bands) => {
            let mut bars = String::new();
            for i in 0..bands.len()
                invariant
                    bars@ =~= equalizer_bars(bands@).take(i as int),
            {
                let level = bands[i];
                let eighths: usize = if level < 1 {
                    1
                } else if level > 8 {
                    8
                } else {
                    level
                };
                bars.push(spectrum::block(eighths));
            }
            assert(equalizer_bars(bands@).take(bands@.len() as int) =~= equalizer_bars(bands@));
            Some(bars)
        },
    }
}

/// The icon for what the player is doing.
pub open spec fn indicator(status: PlayerEvent, nerdfont: bool, flipped: bool) -> Seq<char> {
    let (play, pause, stop) = match (nerdfont, flipped) {
        (false, false) => ("\u{25b6} "@, "\u{25ae}\u{25ae}"@, "\u{25fc} "@),
        (false, true) => ("\u{25ae}\u{25ae}"@, "\u{25b6} "@, "\u{25b6} "@),
        (true, false) => ("\u{f04b} "@, "\u{f04c} "@, "\u{f04d} "@),
        (true, true) => ("\u{f04c} "@, "\u{f04b} "@, "\u{f04b} "@),
    };
    match status {
        PlayerEvent::Playing(_) => play,
        PlayerEvent::Paused(_) => pause,
        PlayerEvent::Stopped | PlayerEvent::FinishedTrack => stop,
    }
}

/// The icon for what the player is doing or, flipped, for what a click on it does.
pub fn playback_indicator(status: PlayerEvent, nerdfont: bool, flipped: bool) -> (icon:
    &'static str)
    ensures
        icon@ == indicator(status, nerdfont, flipped),
{
    let (play, pause, stop) = match (nerdfont, flipped) {
        (false, false) => ("\u{25b6} ", "\u{25ae}\u{25ae}", "\u{25fc} "),
        (false, true) => ("\u{25ae}\u{25ae}", "\u{25b6} ", "\u{25b6} "),
        (true, false) => ("\u{f04b} ", "\u{f04c} ", "\u{f04d} "),
        (true, true) => ("\u{f04c} ", "\u{f04b} ", "\u{f04b} "),
    };
    match status {
        PlayerEvent::Playing(_) => play,
        PlayerEvent::Paused(_) => pause,
        PlayerEvent::Stopped | PlayerEvent::FinishedTrack => stop,
    }
}

/// The volume, as the statusbar shows it.
pub open spec fn volume_label(volume: u16) -> Seq<char> {
    " ["@ + text::digits(meters::nearest_percent(volume as nat)) + "%]"@
}

/// The volume, as the statusbar shows it.
pub fn volume_display(volume: u16) -> (label: String)
    ensures
        label@ == volume_label(volume),
{
    let mut label = " [".to_owned();
    label.append(&text::decimal(meters::volume_percent(volume) as u128));
    label.append("%]");
    label
}

/// The sign that the library is being updated.
pub open spec fn updating_sign(updating: bool, nerdfont: bool) -> Seq<char> {
    match (updating, nerdfont) {
        (false, _) => ""@,
        (true, true) => "\u{f04e6} "@,
        (true, false) => "[U] "@,
    }
}

/// The sign for what is repeated.
pub open spec fn repeat_sign(repeat: RepeatSetting, nerdfont: bool) -> Seq<char> {
    match (repeat, nerdfont) {
        (RepeatSetting::Off, _) => ""@,
        (RepeatSetting::RepeatPlaylist, true) => "\u{f0456} "@,
        (RepeatSetting::RepeatTrack, true) => "\u{f0458} "@,
        (RepeatSetting::RepeatPlaylist, false) => "[R] "@,
        (RepeatSetting::RepeatTrack, false) => "[R1] "@,
    }
}

/// The sign that the queue is shuffled.
pub open spec fn shuffle_sign(shuffle: bool, nerdfont: bool) -> Seq<char> {
    match (shuffle, nerdfont) {
        (false, _) => ""@,
        (true, true) => "\u{f049d} "@,
        (true, false) => "[Z] "@,
    }
}

/// The whole milliseconds of a time.
pub open spec fn whole_ms(time: u128) -> nat {
    (time / 1_000_000) as nat
}

/// How far the player is, out of how much. A time that no clock of the player shows reads as
/// its start.
pub open spec fn times_label(progress: u128, duration: u32) -> Seq<char> {
    text::clock_face(
        if whole_ms(progress) <= u32::MAX {
            whole_ms(progress)
        } else {
            0
        },
    ) + " / "@ + text::clock_face(duration as nat)
}

/// The part of the second line that is held to the right.
pub open spec fn right_label(readout: Readout) -> Seq<char> {
    updating_sign(readout.updating, readout.nerdfont) + repeat_sign(
        readout.repeat,
        readout.nerdfont,
    ) + shuffle_sign(readout.shuffle, readout.nerdfont) + (match readout.current {
        Some(playable) => times_label(readout.progress, playable@.duration()),
        None => ""@,
    }) + volume_label(readout.volume)
}

/// The part of the second line that is held to the right.
fn right_text(readout: &Readout) -> (label: String)
    ensures
        label@ == right_label(*readout),
{
    let mut label = String::new();
    label.append(
        match (readout.updating, readout.nerdfont) {
            (false, _) => "",
            (true, true) => "\u{f04e6} ",
            (true, false) => "[U] ",
        },
    );
    label.append(
        match (readout.repeat, readout.nerdfont) {
            (RepeatSetting::Off, _) => "",
            (RepeatSetting::RepeatPlaylist, true) => "\u{f0456} ",
            (RepeatSetting::RepeatTrack, true) => "\u{f0458} ",
            (RepeatSetting::RepeatPlaylist, false) => "[R] ",
            (RepeatSetting::RepeatTrack, false) => "[R1] ",
        },
    );
    label.append(
        match (readout.shuffle, readout.nerdfont) {
            (false, _) => "",
            (true, true) => "\u{f049d} ",
            (true, false) => "[Z] ",
        },
    );
    let times = match &readout.current {
        Some(playable) => {
            let ms: u128 = readout.progress / 1_000_000;
            let shown: u32 = if ms <= u32::MAX as u128 {
                ms as u32
            } else {
                0
            };
            let mut times = text::ms_to_hms(shown);
            times.append(" / ");
            times.append(&playable.duration_str());
            times
        },
        None => "".to_owned(),
    };
    label.append(&times);
    label.append(&volume_display(readout.volume));
    assert(label@ =~= right_label(*readout));
    label
}

/// How far the bar reaches, in half cells: as much of the bar as has been played of the item.
/// The bar of an item with no length stays at its start, and none reaches past its end.
pub open spec fn bar_halves(progress: u128, duration: u32, columns: usize) -> nat {
    let elapsed = if whole_ms(progress) <= duration {
        whole_ms(progress)
    } else {
        duration as nat
    };
    if duration > 0 {
        elapsed * (2 * columns as nat) / (duration as nat)
    } else {
        0
    }
}

/// How far the bar reaches, in half cells.
fn halves(progress: u128, duration: u32, columns: usize) -> (reach: u128)
    ensures
        reach == bar_halves(progress, duration, columns),
{
    if duration == 0 {
        return 0;
    }
    let played: u128 = progress / 1_000_000;
    let whole: u128 = duration as u128;
    let elapsed: u128 = if played <= whole {
        played
    } else {
        whole
    };
    let doubled: u128 = 2 * columns as u128;
    proof {
        assert(elapsed * doubled <= 0xffff_ffff * 0x1_ffff_ffff_ffff_fffe) by (nonlinear_arith)
            requires
                elapsed <= 0xffff_ffff,
                doubled <= 0x1_ffff_ffff_ffff_fffe,
        ;
    }
    elapsed * doubled / whole
}

/// The filled part of the bar. Halves rather than whole cells, so the bar creeps forward
/// steadily on a long track instead of sitting still and then jumping a cell.
pub open spec fn bar_marks(reach: nat, columns: usize) -> Seq<Mark> {
    let full = vstd::math::min((reach / 2) as int, columns as int);
    seq![canvas::mark(0, 0, text::repeated('\u{2501}', (full + 1) as nat), Ink::Bar)] + (
    if reach % 2 == 1 && full + 1 < columns {
        seq![canvas::mark(full + 1, 0, "\u{2578}"@, Ink::Bar)]
    } else {
        Seq::empty()
    })
}

/// The cells between the indicator and the readout on the right: the name of the item stops
/// there instead of running underneath it.
pub open spec fn title_room(offset: nat) -> nat {
    if offset >= 6 {
        (offset - 6) as nat
    } else {
        0
    }
}

/// What the statusbar puts on the screen.
pub open spec fn statusbar_marks(size: Vec2, readout: Readout) -> Seq<Mark> {
    let blanks = text::repeated(' ', size.x as nat);
    let right = right_label(readout);
    let offset = canvas::offset_of(Align::Right, text::text_width(right) as int, size.x as int);
    if size.x == 0 {
        Seq::empty()
    } else {
        seq![
            canvas::mark(0, 0, blanks, Ink::Plain),
            canvas::mark(0, 1, blanks, Ink::Status),
            match equalizer_of(readout) {
                Some(bars) => canvas::mark(1, 1, bars, Ink::Equalizer),
                None => canvas::mark(
                    1,
                    1,
                    indicator(readout.status, readout.nerdfont, readout.flipped),
                    Ink::Status,
                ),
            },
            canvas::mark(0, 0, text::repeated('\u{2509}', size.x as nat), Ink::BarTrack),
        ] + (match readout.current {
            Some(_) => seq![
                canvas::mark(
                    4,
                    1,
                    anim::scrolled(
                        readout.line@,
                        title_room(offset as nat),
                        readout.progress as nat,
                    ),
                    Ink::Status,
                ),
            ],
            None => Seq::empty(),
        }) + seq![canvas::mark(offset as int, 1, right, Ink::Status)] + (match readout.current {
            Some(playable) => bar_marks(
                bar_halves(readout.progress, playable@.duration(), size.x),
                size.x,
            ),
            None => Seq::empty(),
        })
    }
}

/// Draw the filled part of the bar.
fn draw_bar(sheet: &mut Sheet, reach: u128, columns: usize)
    requires
        columns < usize::MAX,
    ensures
        final(sheet)@ == old(sheet)@ + bar_marks(reach as nat, columns),
{
    let half: u128 = reach / 2;
    let full: usize = if half < columns as u128 {
        half as usize
    } else {
        columns
    };
    sheet.print(0, 0, &text::repeat('\u{2501}', full + 1), Ink::Bar);
    if reach % 2 == 1 && full + 1 < columns {
        sheet.print(full + 1, 0, "\u{2578}", Ink::Bar);
    }
    assert(sheet@ =~= old(sheet)@ + bar_marks(reach as nat, columns));
}

/// Draw the statusbar for a screen of `size`.
pub fn draw(size: Vec2, readout: &Readout) -> (sheet: Sheet)
    requires
        size.x < usize::MAX,
    ensures
        sheet@ == statusbar_marks(size, *readout),
{
    let mut sheet = Sheet::new();
    if size.x == 0 {
        return sheet;
    }
    let blanks = text::repeat(' ', size.x);
    sheet.print(0, 0, &blanks, Ink::Plain);
    sheet.print(0, 1, &blanks, Ink::Status);
    match equalizer(readout) {
        // The equalizer takes the icon's place and the blank cell after it. It is drawn on
        // the statusbar's own background, in the bar's colour.
        Some(bars) => sheet.print(1, 1, &bars, Ink::Equalizer),
        None => sheet.print(
            1,
            1,
            playback_indicator(readout.status, readout.nerdfont, readout.flipped),
            Ink::Status,
        ),
    }
    sheet.print(0, 0, &text::repeat('\u{2509}', size.x), Ink::BarTrack);

    let right = right_text(readout);
    let offset = canvas::get_offset(Align::Right, text::width(&right), size.x);
    if readout.current.is_some() {
        // Stop at the readout on the right instead of running underneath it, and scroll
        // rather than clip when the name does not fit the gap.
        let room: usize = offset.saturating_sub(6);
        sheet.print(4, 1, &anim::marquee(&readout.line, room, readout.progress), Ink::Status);
    }
    sheet.print(offset, 1, &right, Ink::Status);
    if let Some(playable) = &readout.current {
        let reach = halves(readout.progress, playable.duration(), size.x);
        draw_bar(&mut sheet, reach, size.x);
    }
    assert(sheet@ =~= statusbar_marks(size, *readout));
    sheet
}

/// The cells that the statusbar asks for where so many are to be had.
pub fn required_size(constraint: Vec2) -> (size: Vec2)
    ensures
        size == (Vec2 { x: constraint.x, y: 2 }),
{
    Vec2::new(constraint.x, 2)
}

/// What the statusbar asks of the player.
#[derive(Clone, Copy, PartialEq, Eq, Structural, Debug)]
pub enum Nudge {
    SeekRelative(i32),
    /// Go to the current item's `part / whole`.
    SeekTo { part: usize, whole: usize },
    SetVolume(u16),
    TogglePlayback,
}

/// What becomes of an event.
#[derive(Clone, Copy, PartialEq, Eq, Structural, Debug)]
pub enum Touch {
    /// It is left to others.
    Ignored,
    /// It is used up, with nothing or something to do.
    Consumed(Option<Nudge>),
}

/// What the mouse does at a cell of a statusbar that is `columns` wide: the bar is for
/// seeking, the volume at the right end of the second line for the volume, the rest of that
/// line for starting and stopping.
pub open spec fn nudged(
    x: int,
    y: int,
    event: Mouse,
    columns: usize,
    volume: u16,
    playing_item: bool,
) -> Option<Nudge> {
    if y == 0 {
        match event {
            Mouse::WheelUp => Some(Nudge::SeekRelative((-BAR_SEEK_MS) as i32)),
            Mouse::WheelDown => Some(Nudge::SeekRelative(BAR_SEEK_MS)),
            Mouse::LeftPress if playing_item => Some(
                Nudge::SeekTo { part: x as usize, whole: columns },
            ),
            _ => None,
        }
    } else if columns - x < volume_label(volume).len() {
        match event {
            Mouse::WheelUp => Some(
                Nudge::SetVolume(controls::stepped_volume(volume as int, 1) as u16),
            ),
            Mouse::WheelDown => Some(
                Nudge::SetVolume(controls::stepped_volume(volume as int, -1) as u16),
            ),
            _ => None,
        }
    } else {
        match event {
            Mouse::LeftPress => Some(Nudge::TogglePlayback),
            _ => None,
        }
    }
}

/// Take an event. `columns` is how wide the statusbar was when it was laid out; the mouse is
/// inside it.
pub fn on_event(event: Input, columns: usize, volume: u16, playing_item: bool) -> (touch: Touch)
    requires
        event matches Input::Mouse { offset, position, .. } ==> offset.x <= position.x && offset.y
            <= position.y && (position.y > offset.y ==> position.x - offset.x <= columns),
    ensures
        touch == (match event {
            Input::Mouse { offset, position, event } => Touch::Consumed(
                nudged(
                    position.x - offset.x,
                    position.y - offset.y,
                    event,
                    columns,
                    volume,
                    playing_item,
                ),
            ),
            _ => Touch::Ignored,
        }),
{
    match event {
        Input::Mouse { offset, position, event } => {
            let x: usize = position.x - offset.x;
            let y: usize = position.y - offset.y;
            if y == 0 {
                return Touch::Consumed(
                    match event {
                        Mouse::WheelUp => Some(Nudge::SeekRelative(-BAR_SEEK_MS)),
                        Mouse::WheelDown => Some(Nudge::SeekRelative(BAR_SEEK_MS)),
                        Mouse::LeftPress => if playing_item {
                            Some(Nudge::SeekTo { part: x, whole: columns })
                        } else {
                            None
                        },
                        Mouse::Other => None,
                    },
                );
            }
            let label = text::chars_of(&volume_display(volume));
            if columns - x < label.len() {
                return Touch::Consumed(
                    match event {
                        Mouse::WheelUp => Some(
                            Nudge::SetVolume(volume.saturating_add(VOLUME_PERCENT)),
                        ),
                        Mouse::WheelDown => Some(
                            Nudge::SetVolume(volume.saturating_sub(VOLUME_PERCENT)),
                        ),
                        _ => None,
                    },
                );
            }
            Touch::Consumed(
                match event {
                    Mouse::LeftPress => Some(Nudge::TogglePlayback),
                    _ => None,
                },
            )
        },
        _ => Touch::Ignored,
    }
}

/// The name of the item ends before the readout on the right begins.
pub proof fn law_the_title_stops_before_the_readout(offset: nat)
    requires
        offset >= 6,
    ensures
        4 + title_room(offset) < offset,
{
}

/// An item that has been played to its end fills the bar, and none reaches further.
pub proof fn law_the_bar_fills_up(progress: u128, duration: u32, columns: usize)
    requires
        duration > 0,
    ensures
        whole_ms(progress) >= duration ==> bar_halves(progress, duration, columns) == 2 * columns,
        bar_halves(progress, duration, columns) <= 2 * columns,
{
    let elapsed = if whole_ms(progress) <= duration {
        whole_ms(progress)
    } else {
        duration as nat
    };
    let cells = 2 * columns as nat;
    assert(elapsed * cells / (duration as nat) <= cells) by (nonlinear_arith)
        requires
            elapsed <= duration,
            duration > 0,
    ;
    assert(duration as nat * cells / (duration as nat) == cells) by (nonlinear_arith)
        requires
            duration > 0,
    ;
}

/// The bar creeps forward: it never goes back while an item plays on.
pub proof fn law_the_bar_creeps_forward(
    progress: u128,
    later: u128,
    duration: u32,
    columns: usize,
)
    requires
        progress <= later,
    ensures
        bar_halves(progress, duration, columns) <= bar_halves(later, duration, columns),
{
    if duration > 0 {
        let whole = duration as nat;
        let one = if whole_ms(progress) <= whole {
            whole_ms(progress)
        } else {
            whole
        };
        let other = if whole_ms(later) <= whole {
            whole_ms(later)
        } else {
            whole
        };
        let cells = 2 * columns as nat;
        vstd::arithmetic::div_mod::lemma_div_is_ordered(progress as int, later as int, 1_000_000);
        assert(one * cells <= other * cells) by (nonlinear_arith)
            requires
                one <= other,
        ;
        vstd::arithmetic::div_mod::lemma_div_is_ordered(
            (one * cells) as int,
            (other * cells) as int,
            duration as int,
        );
    }
}

// ---------------------------------------------------------------------------
// What the statusbar promises to say.
// ---------------------------------------------------------------------------

/// The indicator tells the states of the player apart: a triangle while something plays, two
/// bars while it is paused, a square while nothing is going on. Flipped, it shows what a
/// click does, which is what is shown of the state that the click leads to.
pub proof fn law_the_indicator_tells_states_apart(status: PlayerEvent, nerdfont: bool, since: u128)
    ensures
        ({
            let plain = indicator(status, nerdfont, false);
            let flipped = indicator(status, nerdfont, true);
            let (play, pause, stop) = if nerdfont {
                ('\u{f04b}', '\u{f04c}', '\u{f04d}')
            } else {
                ('\u{25b6}', '\u{25ae}', '\u{25fc}')
            };
            &&& plain.len() == 2 && flipped.len() == 2
            &&& plain[0] == play <==> status is Playing
            &&& plain[0] == pause <==> status is Paused
            &&& plain[0] == stop <==> !(status is Playing) && !(status is Paused)
            &&& status is Playing ==> flipped == indicator(
                PlayerEvent::Paused(since),
                nerdfont,
                false,
            )
            &&& !(status is Playing) ==> flipped == indicator(
                PlayerEvent::Playing(since),
                nerdfont,
                false,
            )
        }),
{
    reveal_strlit("\u{25b6} ");
    reveal_strlit("\u{25ae}\u{25ae}");
    reveal_strlit("\u{25fc} ");
    reveal_strlit("\u{f04b} ");
    reveal_strlit("\u{f04c} ");
    reveal_strlit("\u{f04d} ");
}

/// The volume stands in brackets, as a percentage that is within half a percent of it.
pub proof fn law_the_volume_reads_back(volume: u16)
    ensures
        ({
            let label = volume_label(volume);
            let size = label.len() as int;
            let percent = text::number_of(label.subrange(2, size - 2));
            &&& size >= 5
            &&& label[0] == ' ' && label[1] == '['
            &&& label[size - 2] == '%' && label[size - 1] == ']'
            &&& -0xffff <= 2 * (percent * 0xffff - 100 * volume) <= 0xffff
        }),
{
    let percent = meters::nearest_percent(volume as nat);
    let label = volume_label(volume);
    reveal_strlit(" [");
    reveal_strlit("%]");
    text::law_a_number_reads_back(percent);
    meters::law_a_meter_shows_its_percentage(volume as nat, 0, 0);
    assert(label.subrange(2, label.len() - 2) =~= text::digits(percent));
}

/// A sign is there exactly while what it stands for is on, and no two signs look alike.
pub proof fn law_signs_are_told_apart(repeat: RepeatSetting, nerdfont: bool)
    ensures
        updating_sign(false, nerdfont).len() == 0,
        shuffle_sign(false, nerdfont).len() == 0,
        repeat_sign(repeat, nerdfont).len() == 0 <==> repeat == RepeatSetting::Off,
        ({
            let update = updating_sign(true, nerdfont);
            let shuffled = shuffle_sign(true, nerdfont);
            let all = repeat_sign(RepeatSetting::RepeatPlaylist, nerdfont);
            let one = repeat_sign(RepeatSetting::RepeatTrack, nerdfont);
            &&& update.len() > 0 && update.last() == ' '
            &&& shuffled.len() > 0 && shuffled.last() == ' '
            &&& all.len() > 0 && all.last() == ' '
            &&& one.len() > 0 && one.last() == ' '
            &&& nerdfont ==> update[0] == '\u{f04e6}' && shuffled[0] == '\u{f049d}' && all[0]
                == '\u{f0456}' && one[0] == '\u{f0458}'
            &&& !nerdfont ==> update[1] == 'U' && shuffled[1] == 'Z' && all[1] == 'R' && all[2]
                == ']' && one[1] == 'R' && one[2] == '1'
        }),
{
    reveal_strlit("");
    reveal_strlit("\u{f04e6} ");
    reveal_strlit("[U] ");
    reveal_strlit("\u{f0456} ");
    reveal_strlit("\u{f0458} ");
    reveal_strlit("[R] ");
    reveal_strlit("[R1] ");
    reveal_strlit("\u{f049d} ");
    reveal_strlit("[Z] ");
}

/// What is held to the right ends with the volume and, right before it, the time that was
/// played out of the length of the item, in whole seconds; the signs stand before those.
pub proof fn law_the_readout_ends_with_the_volume(readout: Readout)
    requires
        readout.progress / 1_000_000 <= u32::MAX,
    ensures
        ({
            let label = right_label(readout);
            let volume = volume_label(readout.volume);
            let rest = label.take(label.len() - volume.len());
            let signs = updating_sign(readout.updating, readout.nerdfont) + repeat_sign(
                readout.repeat,
                readout.nerdfont,
            ) + shuffle_sign(readout.shuffle, readout.nerdfont);
            &&& label.len() >= volume.len() + signs.len()
            &&& label.skip(label.len() - volume.len()) == volume
            &&& rest.take(signs.len() as int) == signs
            &&& readout.current is None ==> rest == signs
            &&& readout.current matches Some(playable) ==> {
                let times = rest.skip(signs.len() as int);
                let at = text::clock_face((readout.progress / 1_000_000) as nat);
                let long = text::clock_face(playable@.duration() as nat);
                &&& times.len() == at.len() + 3 + long.len()
                &&& text::seconds_on(times.take(at.len() as int)) == readout.progress
                    / 1_000_000_000
                &&& times[at.len() as int + 1] == '/'
                &&& text::seconds_on(times.skip(at.len() as int + 3)) == playable@.duration()
                    / 1000
            }
        }),
{
    let label = right_label(readout);
    let volume = volume_label(readout.volume);
    let rest = label.take(label.len() - volume.len());
    let signs = updating_sign(readout.updating, readout.nerdfont) + repeat_sign(
        readout.repeat,
        readout.nerdfont,
    ) + shuffle_sign(readout.shuffle, readout.nerdfont);
    reveal_strlit("");
    reveal_strlit(" / ");
    assert(label.skip(label.len() - volume.len()) =~= volume);
    assert(rest.take(signs.len() as int) =~= signs);
    match readout.current {
        None => {
            assert(rest =~= signs);
        },
        Some(playable) => {
            let times = rest.skip(signs.len() as int);
            let ms = (readout.progress / 1_000_000) as nat;
            let at = text::clock_face(ms);
            let long = text::clock_face(playable@.duration() as nat);
            assert(times =~= times_label(readout.progress, playable@.duration()));
            assert(times.take(at.len() as int) =~= at);
            assert(times.skip(at.len() as int + 3) =~= long);
            text::law_a_clock_reads_back(ms);
            text::law_a_clock_reads_back(playable@.duration() as nat);
            assert(ms / 1000 == readout.progress / 1_000_000_000);
        },
    }
}

/// The bar reaches as far as the item has been played, rounded down to half a cell; it is
/// drawn one cell further, with half a cell behind that where a half is left over.
pub proof fn law_the_bar_shows_what_was_played(progress: u128, duration: u32, columns: usize)
    requires
        duration > 0,
        progress / 1_000_000 <= duration,
        columns > 0,
    ensures
        ({
            let reach = bar_halves(progress, duration, columns);
            let played = progress / 1_000_000;
            let marks = bar_marks(reach, columns);
            let length = marks[0].text.len() as int;
            &&& reach * duration <= played * (2 * columns) < (reach + 1) * duration
            &&& marks[0].x == 0 && marks[0].y == 0 && marks[0].ink == Ink::Bar && marks[0].text[0]
                == '\u{2501}'
            &&& 2 * (length - 1) <= reach <= 2 * (length - 1) + 1
            &&& marks.len() == 2 <==> reach == 2 * (length - 1) + 1 && length < columns
            &&& marks.len() == 2 ==> marks[1].x == length && marks[1].y == 0 && marks[1].text
                == seq!['\u{2578}'] && marks[1].ink == Ink::Bar
            &&& marks.len() <= 2
        }),
{
    let played = (progress / 1_000_000) as nat;
    let whole = duration as nat;
    let cells = 2 * columns as nat;
    let product = played * cells;
    reveal_strlit("\u{2578}");
    assert("\u{2578}"@ =~= seq!['\u{2578}']);
    law_the_bar_fills_up(progress, duration, columns);
    assert((product / whole) * whole <= product < (product / whole + 1) * whole) by (nonlinear_arith)
        requires
            whole > 0,
    ;
}

/// The equalizer has a bar for each band, as high as its level, at least one eighth and at
/// most a whole cell; it is there exactly while something plays, there is audio to draw it
/// from, and moving parts are not turned off.
pub proof fn law_the_equalizer_follows_the_bands(readout: Readout, i: int)
    ensures
        equalizer_of(readout) is Some <==> readout.bands is Some && readout.status is Playing
            && readout.fps != Some(0u32),
        equalizer_of(readout) matches Some(bars) ==> bars.len() == readout.bands->0@.len(),
        equalizer_of(readout) matches Some(bars) ==> 0 <= i < bars.len() ==> {
            let level = readout.bands->0@[i];
            let height = spectrum::block_height(bars[i]);
            &&& 1 <= height <= 8
            &&& 1 <= level <= 8 ==> height == level
            &&& level == 0 ==> height == 1
            &&& level > 8 ==> height == 8
        },
{
}

/// The wheel over the bar goes half a second back when it is turned up and as far on when it
/// is turned down; a click goes to where it points, where there is anything to go to.
pub proof fn law_the_bar_seeks(x: int, columns: usize, volume: u16, playing_item: bool)
    requires
        0 <= x <= usize::MAX,
    ensures
        nudged(x, 0, Mouse::WheelUp, columns, volume, playing_item) matches Some(
            Nudge::SeekRelative(back),
        ) && nudged(x, 0, Mouse::WheelDown, columns, volume, playing_item) matches Some(
            Nudge::SeekRelative(on),
        ) && back + on == 0 && on == 500,
        nudged(x, 0, Mouse::LeftPress, columns, volume, playing_item) is Some <==> playing_item,
        playing_item ==> (nudged(x, 0, Mouse::LeftPress, columns, volume, playing_item) matches Some(
            Nudge::SeekTo { part, whole },
        ) && part == x && whole == columns),
        nudged(x, 0, Mouse::Other, columns, volume, playing_item) is None,
{
}

/// On the second line the wheel works over the volume only, where one notch moves it by a
/// hundredth of its range, up or down, as far as the range goes; a click works anywhere
/// before that, and starts or stops.
pub proof fn law_the_second_line_steps_the_volume(
    x: int,
    columns: usize,
    volume: u16,
    playing_item: bool,
)
    requires
        0 <= x <= columns,
    ensures
        ({
            let over = x + volume_label(volume).len() > columns;
            let up = nudged(x, 1, Mouse::WheelUp, columns, volume, playing_item);
            let down = nudged(x, 1, Mouse::WheelDown, columns, volume, playing_item);
            let click = nudged(x, 1, Mouse::LeftPress, columns, volume, playing_item);
            &&& up is Some <==> over
            &&& down is Some <==> over
            &&& up matches Some(nudge) ==> (nudge matches Nudge::SetVolume(louder) && volume
                <= louder && (volume + 655 <= 0xffff ==> louder == volume + 655) && (volume + 655
                > 0xffff ==> louder == 0xffff))
            &&& down matches Some(nudge) ==> (nudge matches Nudge::SetVolume(softer) && softer
                <= volume && (volume >= 655 ==> softer == volume - 655) && (volume < 655 ==> softer
                == 0))
            &&& click == Some(Nudge::TogglePlayback) <==> !over
            &&& over ==> click is None
        }),
{
}

/// The readout on the right ends with the line, the name of the item starts four columns in
/// and ends two columns before the readout, and the indicator or the equalizer is one column
/// in; the bar is drawn on the first line, over a track of its whole length.
pub proof fn law_the_second_line_is_laid_out(size: Vec2, readout: Readout)
    requires
        size.x > 0,
        text::text_width(right_label(readout)) <= size.x,
    ensures
        ({
            let marks = statusbar_marks(size, readout);
            let named: int = if readout.current is Some {
                1
            } else {
                0
            };
            let right = marks[4 + named];
            &&& marks[2].x == 1 && marks[2].y == 1
            &&& equalizer_of(readout) matches Some(bars) ==> marks[2].text == bars
            &&& equalizer_of(readout) is None ==> marks[2].text == indicator(
                readout.status,
                readout.nerdfont,
                readout.flipped,
            )
            &&& named == 1 ==> marks[4].x == 4 && marks[4].y == 1
            &&& right.y == 1 && right.text == right_label(readout) && right.ink == Ink::Status
            &&& equalizer_of(readout) is Some <==> marks[2].ink == Ink::Equalizer
            &&& equalizer_of(readout) is None <==> marks[2].ink == Ink::Status
            &&& marks[3].x == 0 && marks[3].y == 0 && marks[3].ink == Ink::BarTrack
                && marks[3].text.len() == size.x
            &&& named == 1 ==> marks[4].ink == Ink::Status && marks[4].text == anim::scrolled(
                readout.line@,
                (if right.x >= 6 {
                    right.x - 6
                } else {
                    0
                }) as nat,
                readout.progress as nat,
            )
            &&& readout.current matches Some(playable) ==> marks.skip(6) == bar_marks(
                bar_halves(readout.progress, playable@.duration(), size.x),
                size.x,
            )
            &&& right.x + text::text_width(right.text) == size.x
            &&& named == 0 ==> marks.len() == 5
        }),
{
    let marks = statusbar_marks(size, readout);
    if let Some(playable) = readout.current {
        assert(marks.skip(6) =~= bar_marks(
            bar_halves(readout.progress, playable@.duration(), size.x),
            size.x,
        ));
    }
}

} // verus!
