//! Small time based helpers shared by the animated parts of the UI.
//!
//! Everything here is a pure function of a duration, so a view can animate without keeping
//! any state of its own: pass in how long the thing has been on screen and get back what to
//! draw this frame. Animations that are driven by playback position (the elapsed time of
//! the current track) also reset themselves at a track change and freeze while paused,
//! which is what you want in both cases.
//!
//! Times are in nanoseconds.

use vstd::prelude::*;

use crate::text;

verus! {

/// Frames per second the animated views run at, unless `visualizer_fps` says otherwise.
/// Fast enough to look fluid, slow enough to stay cheap.
pub const DEFAULT_FPS: u32 = 20;
/// Bounds for `visualizer_fps`, so a typo cannot melt a CPU or stall the animation.
pub const FPS_MIN: u32 = 1;
pub const FPS_MAX: u32 = 60;
/// How often an idle view is checked again.
pub const IDLE_INTERVAL: u64 = 250_000_000;
/// A view drawn this recently is assumed to still be on screen.
pub const VISIBLE_FOR: u128 = 500_000_000;
/// How long frames keep being drawn after playback stops, so a view can settle.
pub const SETTLE_FOR: u128 = 900_000_000;

/// Whether `at` lies less than `span` before `now`.
pub open spec fn within(at: Option<u128>, now: u128, span: u128) -> bool {
    at matches Some(at) && now - at < span
}

/// Whether `at` lies less than `span` before `now`. A moment after `now` counts as now.
fn recent(at: Option<u128>, now: u128, span: u128) -> (is_recent: bool)
    requires
        span > 0,
    ensures
        is_recent == within(at, now, span),
{
    match at {
        Some(at) => now.saturating_sub(at) < span,
        None => false,
    }
}

/// Drives a view while it is on screen.
///
/// The rest of the program only redraws every few hundred milliseconds, which is far too
/// coarse for an animation, so this asks the event loop for extra frames, but only while
/// the view is actually being drawn and something is playing, so a background tab never
/// costs anything.
pub struct Animator {
    pub last_draw: Option<u128>,
}

impl Animator {
    /// An animator for a view that was never drawn.
    pub fn new() -> (animator: Self)
        ensures
            animator.last_draw is None,
    {
        Animator { last_draw: None }
    }

    /// The view is drawn at `now`.
    pub fn mark_drawn(&mut self, now: u128)
        ensures
            final(self).last_draw == Some(now),
    {
        self.last_draw = Some(now);
    }

    /// Whether the view is assumed to be on screen at `now`.
    pub fn is_visible(&self, now: u128) -> (visible: bool)
        ensures
            visible == within(self.last_draw, now, VISIBLE_FOR),
            self.last_draw is None ==> !visible,
            self.last_draw matches Some(at) ==> (visible <==> now < at + 500 * 1_000_000),
    {
        recent(self.last_draw, now, VISIBLE_FOR)
    }
}

/// The frames per second that a setting comes down to.
pub open spec fn clamped_fps(fps: u32) -> u32 {
    if fps < FPS_MIN {
        FPS_MIN
    } else if fps > FPS_MAX {
        FPS_MAX
    } else {
        fps
    }
}

/// The length of a frame at `fps` frames per second, to the nearest nanosecond. Zero frames
/// per second means the user turned the animation off: the view still draws, it just never
/// asks for a frame.
pub fn frame_length(fps: u32) -> (length: Option<u64>)
    ensures
        length is None <==> fps == 0,
        length matches Some(length) ==> length == (2_000_000_000 + clamped_fps(fps)) / (2
            * clamped_fps(fps)),
        length matches Some(length) ==> {
            let rate = vstd::math::min(fps as int, 60);
            -rate <= 2 * (length * rate - 1_000_000_000) <= rate
        },
{
    if fps == 0 {
        return None;
    }
    let rate: u64 = if fps > FPS_MAX {
        FPS_MAX as u64
    } else {
        fps as u64
    };
    proof {
        lemma_frames_fill_a_second(rate as int);
    }
    Some((2_000_000_000 + rate) / (2 * rate))
}

/// So many frames of the nearest length fill a second, but for half a nanosecond each.
proof fn lemma_frames_fill_a_second(rate: int)
    requires
        rate > 0,
    ensures
        ({
            let length = (2_000_000_000 + rate) / (2 * rate);
            -rate <= 2 * (length * rate - 1_000_000_000) <= rate
        }),
{
    let total = 2_000_000_000 + rate;
    let length = total / (2 * rate);
    vstd::arithmetic::div_mod::lemma_fundamental_div_mod(total, 2 * rate);
    vstd::arithmetic::div_mod::lemma_mod_bound(total, 2 * rate);
    assert((2 * rate) * length == 2 * (length * rate)) by (nonlinear_arith);
}

/// What the animation does next.
#[derive(Clone, Copy, PartialEq, Eq, Structural, Debug)]
pub enum Pace {
    /// Look again in a while.
    Idle,
    /// Ask for a frame and wait for its length; stop if nobody takes it any more.
    Frame,
}

/// Decides, step by step, whether the animation is worth a frame.
pub struct Pacer {
    pub last_playing: Option<u128>,
}

impl Pacer {
    /// A pacer that has not seen anything play.
    pub fn new() -> (pacer: Self)
        ensures
            pacer.last_playing is None,
    {
        Pacer { last_playing: None }
    }

    /// One step at `now`. Frames keep coming for a moment after playback stops, so the band
    /// eases down to its idle shape instead of freezing mid fall.
    pub fn step(&mut self, visible: bool, playing: bool, now: u128) -> (pace: Pace)
        ensures
            final(self).last_playing == (if playing {
                Some(now)
            } else {
                old(self).last_playing
            }),
            pace == Pace::Frame <==> visible && (playing || within(
                old(self).last_playing,
                now,
                SETTLE_FOR,
            )),
            !visible ==> pace == Pace::Idle,
            visible && !playing ==> (pace == Pace::Frame <==> (old(
                self,
            ).last_playing matches Some(at) && now < at + 900 * 1_000_000)),
            pace == Pace::Idle || pace == Pace::Frame,
    {
        if playing {
            self.last_playing = Some(now);
        }
        let settling = recent(self.last_playing, now, SETTLE_FOR);
        if !visible || !(playing || settling) {
            Pace::Idle
        } else {
            Pace::Frame
        }
    }
}

// ---------------------------------------------------------------------------
// Colours.
// ---------------------------------------------------------------------------

/// A colour, as far as it can be worked with.
#[derive(Clone, Copy, PartialEq, Eq, Structural, Debug)]
pub enum Colour {
    Rgb(u8, u8, u8),
    /// On the coarse cube of a terminal with few colours, where a channel ends at five.
    RgbLowRes(u8, u8, u8),
    /// A colour of the terminal's own palette.
    Palette,
}

/// Whether a colour has components to interpolate. A terminal palette colour does not, so
/// callers that want a gradient need another way to shade on those themes: the terminal's
/// own dim attribute, usually.
pub fn blendable(colour: Colour) -> (components: bool)
    ensures
        components == !(colour is Palette),
{
    match colour {
        Colour::Palette => false,
        _ => true,
    }
}

/// Whether two colours can be interpolated: both have components, on the same scale. A
/// blend of any other two snaps to the second rather than guessing.
pub fn same_scale(from: Colour, to: Colour) -> (meet: bool)
    ensures
        meet == (from is Rgb && to is Rgb || from is RgbLowRes && to is RgbLowRes),
{
    match (from, to) {
        (Colour::Rgb(_, _, _), Colour::Rgb(_, _, _)) => true,
        (Colour::RgbLowRes(_, _, _), Colour::RgbLowRes(_, _, _)) => true,
        _ => false,
    }
}

/// The top of the scale of a channel, which a colour is lifted towards. Colours that are
/// not given as components are left alone, since there is nothing to brighten.
pub fn ceiling(colour: Colour) -> (top: Option<u8>)
    ensures
        top == (match colour {
            Colour::Rgb(_, _, _) => Some(255u8),
            Colour::RgbLowRes(_, _, _) => Some(5u8),
            Colour::Palette => None,
        }),
{
    match colour {
        Colour::Rgb(_, _, _) => Some(255),
        Colour::RgbLowRes(_, _, _) => Some(5),
        Colour::Palette => None,
    }
}

// ---------------------------------------------------------------------------
// A scrolling line.
// ---------------------------------------------------------------------------

/// How long a scrolling line rests at each end before it moves on. Long enough to read the
/// start of a title before it slides away.
pub const MARQUEE_HOLD: u128 = 2_000_000_000;
/// How long a scrolling line takes for one cell. Slow enough to read.
pub const MARQUEE_STEP: u128 = 250_000_000;

/// How long a scrolling line takes to come back to where it started.
pub open spec fn marquee_cycle(overflow: nat) -> nat {
    (2 * (MARQUEE_HOLD + overflow * MARQUEE_STEP)) as nat
}

/// `time` in steps of one cell, to the nearest.
pub open spec fn nearest_step(time: int) -> int {
    (2 * time + MARQUEE_STEP) / (2 * MARQUEE_STEP as int)
}

/// Where a line that is `overflow` cells too long stands at `time` of its cycle: it rests
/// at the start, travels to the end, rests there and travels back.
pub open spec fn cycle_offset(overflow: nat, time: int) -> int {
    let hold = MARQUEE_HOLD as int;
    let travel = overflow * MARQUEE_STEP;
    if time < hold {
        0
    } else if time < hold + travel {
        nearest_step(time - hold)
    } else if time < 2 * hold + travel {
        overflow as int
    } else {
        nearest_step(travel - (time - 2 * hold - travel))
    }
}

/// Where a line that is `overflow` cells too long stands at `phase`.
pub open spec fn marquee_offset(overflow: nat, phase: nat) -> int {
    cycle_offset(overflow, (phase % marquee_cycle(overflow)) as int)
}

/// What shows of `c` in a window of `width` cells from column `start` on, when `c` is at
/// column `column`: nothing, the character, or blanks for the part of it that is inside.
pub open spec fn glimpse(c: char, column: int, start: int, width: int) -> Seq<char> {
    let end = column + text::cell(c);
    if end <= start || column >= start + width {
        Seq::empty()
    } else if column < start {
        text::repeated(' ', vstd::math::min(end - start, width) as nat)
    } else if end > start + width {
        text::repeated(' ', (start + width - column) as nat)
    } else {
        seq![c]
    }
}

/// The `width` cells of `line` from column `start` on.
pub open spec fn windowed(line: Seq<char>, start: nat, width: nat) -> Seq<char>
    decreases line.len(),
{
    if line.len() == 0 {
        Seq::empty()
    } else {
        windowed(line.drop_last(), start, width) + glimpse(
            line.last(),
            text::cells(line.drop_last()) as int,
            start as int,
            width as int,
        )
    }
}

/// The `width` cells of `line` starting at column `start`. A double width character cut in
/// half by either edge shows as a blank, so the window is always exactly as wide as it
/// claims to be.
pub fn window(line: &str, start: usize, width: usize) -> (shown: String)
    ensures
        shown@ == windowed(line@, start as nat, width as nat),
        text::cells(line@) >= start + width ==> text::cells(shown@) == width,
{
    let chars = text::chars_of(line);
    let mut shown = String::new();
    let mut column: u128 = 0;
    let first: u128 = start as u128;
    let end: u128 = first + width as u128;
    let blank = text::cell_of(' ');
    let mut i: usize = 0;
    assert(chars@.take(0) =~= Seq::empty());
    while i < chars.len() && column < end
        invariant
            chars@ == line@,
            i <= chars@.len(),
            first == start,
            end == start + width,
            text::cell(' ') == 1,
            column == text::cells(chars@.take(i as int)),
            shown@ == windowed(chars@.take(i as int), start as nat, width as nat),
            text::cells(shown@) == shown_cells(column as int, start as int, width as int),
        decreases chars.len() - i,
    {
        let c = chars[i];
        let cell: u128 = text::cell_of(c) as u128;
        let ghost before = shown@;
        proof {
            assert(chars@.take(i + 1).drop_last() =~= chars@.take(i as int));
            assert(chars@.take(i + 1).last() == c);
        }
        let ghost seen = glimpse(c, column as int, start as int, width as int);
        if column + cell <= first {
            assert(before + seen =~= before);
        } else if column < first || column + cell > end {
            // Straddles an edge: show the visible part as blanks.
            let inside: u128 = if column < first {
                column + cell - first
            } else {
                end - column
            };
            let blanks: usize = if inside < width as u128 {
                inside as usize
            } else {
                width
            };
            shown.append(&text::repeat(' ', blanks));
            proof {
                lemma_blanks(blanks as nat);
                text::lemma_cells_concat(before, text::repeated(' ', blanks as nat));
            }
        } else {
            shown.push(c);
            assert(shown@ =~= before + seen);
            assert(shown@.drop_last() =~= before);
        }
        column = column + cell;
        i = i + 1;
    }
    proof {
        lemma_rest_unseen(chars@, i as int, start as nat, width as nat);
        if i < chars@.len() {
            text::lemma_cells_monotone(chars@, i as int, chars@.len() as int);
        }
        assert(chars@.take(chars@.len() as int) =~= chars@);
    }
    shown
}

/// The cells of a window that are filled when `column` columns of the line have been seen.
spec fn shown_cells(column: int, start: int, width: int) -> int {
    if column <= start {
        0
    } else if column >= start + width {
        width
    } else {
        column - start
    }
}

/// Blanks take a cell each.
proof fn lemma_blanks(count: nat)
    requires
        text::cell(' ') == 1,
    ensures
        text::cells(text::repeated(' ', count)) == count,
    decreases count,
{
    if count > 0 {
        assert(text::repeated(' ', count).drop_last() =~= text::repeated(' ', (count - 1) as nat));
        lemma_blanks((count - 1) as nat);
    }
}

/// Nothing shows of what lies beyond the window.
proof fn lemma_rest_unseen(line: Seq<char>, from: int, start: nat, width: nat)
    requires
        0 <= from <= line.len(),
        from == line.len() || text::cells(line.take(from)) >= start + width,
    ensures
        windowed(line, start, width) == windowed(line.take(from), start, width),
    decreases line.len(),
{
    if from == line.len() {
        assert(line.take(from) =~= line);
    } else {
        let rest = line.drop_last();
        assert(rest.take(from) =~= line.take(from));
        lemma_rest_unseen(rest, from, start, width);
        text::lemma_cells_monotone(line, from, line.len() - 1);
        assert(line.take(line.len() - 1) =~= rest);
        assert(windowed(rest, start, width) + Seq::<char>::empty() =~= windowed(
            rest,
            start,
            width,
        ));
    }
}

/// What shows of `line` in `width` cells at `phase`.
pub open spec fn scrolled(line: Seq<char>, width: nat, phase: nat) -> Seq<char> {
    let columns = text::text_width(line) as nat;
    if width == 0 {
        Seq::empty()
    } else if columns <= width {
        line
    } else {
        let overflow = (columns - width) as nat;
        windowed(line, marquee_offset(overflow, phase) as nat, width)
    }
}

/// A `width` wide window onto `line`, scrolling when the line is too long to fit.
///
/// The window rests at the start, travels to the end, rests there and travels back, so a
/// long title reads as a line that scans rather than one that jumps. A line that already
/// fits is returned untouched and never moves.
pub fn marquee(line: &str, width: usize, phase: u128) -> (shown: String)
    ensures
        shown@ == scrolled(line@, width as nat, phase as nat),
{
    if width == 0 {
        return String::new();
    }
    let overflow: usize = text::width(line).saturating_sub(width);
    if overflow == 0 {
        return line.to_owned();
    }
    let step: u128 = MARQUEE_STEP;
    let travel: u128 = overflow as u128 * step;
    let time: u128 = phase % (2 * (MARQUEE_HOLD + travel));
    assert(time == phase as nat % marquee_cycle(overflow as nat));
    let offset: u128 = if time < MARQUEE_HOLD {
        0
    } else if time < MARQUEE_HOLD + travel {
        (2 * (time - MARQUEE_HOLD) + step) / (2 * step)
    } else if time < 2 * MARQUEE_HOLD + travel {
        overflow as u128
    } else {
        (2 * (travel - (time - 2 * MARQUEE_HOLD - travel)) + step) / (2 * step)
    };
    proof {
        law_a_line_never_leaves_its_window(overflow as nat, phase as nat);
    }
    window(line, offset as usize, width)
}

// ---------------------------------------------------------------------------
// What a scrolling line promises.
// ---------------------------------------------------------------------------

/// However long the line scrolls, the window stays on it.
pub proof fn law_a_line_never_leaves_its_window(overflow: nat, phase: nat)
    ensures
        0 <= marquee_offset(overflow, phase) <= overflow,
{
    let cycle = marquee_cycle(overflow);
    assert(0 <= phase % cycle < cycle);
}

/// A line that fits never moves.
pub proof fn law_a_line_that_fits_never_scrolls(line: Seq<char>, width: nat, phase: nat)
    requires
        width > 0,
        text::text_width(line) <= width,
    ensures
        scrolled(line, width, phase) == line,
{
}

/// The line comes back to where it was after each cycle.
pub proof fn law_a_line_comes_back(line: Seq<char>, width: nat, phase: nat)
    requires
        text::text_width(line) > width,
    ensures
        scrolled(
            line,
            width,
            phase + marquee_cycle((text::text_width(line) - width) as nat),
        ) == scrolled(line, width, phase),
{
    let cycle = marquee_cycle((text::text_width(line) - width) as nat) as int;
    vstd::arithmetic::div_mod::lemma_mod_add_multiples_vanish(phase as int, cycle);
}

/// A cycle starts with a rest at the start, and has another at the end.
pub proof fn law_a_line_rests_at_both_ends(overflow: nat, phase: nat)
    ensures
        ({
            let time = phase % marquee_cycle(overflow);
            let travel = overflow * MARQUEE_STEP;
            &&& time < MARQUEE_HOLD ==> marquee_offset(overflow, phase) == 0
            &&& MARQUEE_HOLD + travel <= time < 2 * MARQUEE_HOLD + travel ==> marquee_offset(
                overflow,
                phase,
            ) == overflow
        }),
{
}

/// A scrolling line moves by no more than one cell in the time of one cell.
pub proof fn law_a_line_never_jumps(overflow: nat, phase: nat, later: nat)
    requires
        phase <= later <= phase + MARQUEE_STEP,
    ensures
        -1 <= marquee_offset(overflow, later) - marquee_offset(overflow, phase) <= 1,
{
    let cycle = marquee_cycle(overflow) as int;
    let travel = overflow * MARQUEE_STEP;
    let time = phase as int % cycle;
    let delta = later - phase;
    assert(travel == overflow * 250_000_000);
    assert(0 <= time < cycle);
    let round = phase as int / cycle;
    vstd::arithmetic::div_mod::lemma_fundamental_div_mod(phase as int, cycle);
    assert(cycle * round == round * cycle) by (nonlinear_arith);
    assert(later == round * cycle + (time + delta));
    if time + delta < cycle {
        vstd::arithmetic::div_mod::lemma_fundamental_div_mod_converse(
            later as int,
            cycle,
            round,
            time + delta,
        );
    } else {
        assert((round + 1) * cycle == round * cycle + cycle) by (nonlinear_arith);
        assert(later == (round + 1) * cycle + (time + delta - cycle));
        assert(delta <= 250_000_000 && cycle >= 4_000_000_000);
        vstd::arithmetic::div_mod::lemma_fundamental_div_mod_converse(
            later as int,
            cycle,
            round + 1,
            time + delta - cycle,
        );
    }
}

/// On its way to the end a line has moved, to the nearest cell, one cell for every quarter of
/// a second since its first rest of two seconds; on its way back it stands where it stood on
/// the way out at the same distance from the end of the cycle.
pub proof fn law_a_line_travels_at_one_pace(overflow: nat, time: nat)
    requires
        0 <= time <= overflow * 250_000_000,
        overflow > 0,
    ensures
        ({
            let out = marquee_offset(overflow, 2_000_000_000 + time);
            -250_000_000 <= 2 * (out * 250_000_000 - time) <= 250_000_000
        }),
        time > 0 ==> marquee_offset(overflow, 2_000_000_000 + time) == marquee_offset(
            overflow,
            (marquee_cycle(overflow) - time) as nat,
        ),
        marquee_cycle(overflow) == 2 * 2_000_000_000 + 2 * overflow * 250_000_000,
{
    let cycle = marquee_cycle(overflow);
    let travel = overflow * 250_000_000;
    assert(overflow * MARQUEE_STEP == travel);
    assert(2 * overflow * 250_000_000 == 2 * travel);
    vstd::arithmetic::div_mod::lemma_small_mod(2_000_000_000 + time, cycle);
    if time > 0 {
        vstd::arithmetic::div_mod::lemma_small_mod((cycle - time) as nat, cycle);
    }
}

proof fn lemma_single_cells(line: Seq<char>)
    requires
        forall|i: int| 0 <= i < line.len() ==> text::cell(#[trigger] line[i]) == 1,
    ensures
        text::cells(line) == line.len(),
    decreases line.len(),
{
    if line.len() > 0 {
        let rest = line.drop_last();
        assert forall|i: int| 0 <= i < rest.len() implies text::cell(#[trigger] rest[i]) == 1 by {
            assert(rest[i] == line[i]);
        }
        lemma_single_cells(rest);
    }
}

/// Where every character takes one cell, a window shows the characters of its columns and no
/// others.
pub proof fn law_a_window_shows_its_columns(line: Seq<char>, start: nat, width: nat)
    requires
        forall|i: int| 0 <= i < line.len() ==> text::cell(#[trigger] line[i]) == 1,
        width > 0,
    ensures
        windowed(line, start, width) == line.subrange(
            vstd::math::min(start as int, line.len() as int),
            vstd::math::min((start + width) as int, line.len() as int),
        ),
    decreases line.len(),
{
    let shown = windowed(line, start, width);
    if line.len() == 0 {
        assert(shown =~= line.subrange(0, 0));
    } else {
        let rest = line.drop_last();
        assert forall|i: int| 0 <= i < rest.len() implies text::cell(#[trigger] rest[i]) == 1 by {
            assert(rest[i] == line[i]);
        }
        law_a_window_shows_its_columns(rest, start, width);
        lemma_single_cells(rest);
        assert(text::cell(line[line.len() - 1]) == 1);
        assert(shown =~= line.subrange(
            vstd::math::min(start as int, line.len() as int),
            vstd::math::min((start + width) as int, line.len() as int),
        ));
    }
}

/// A character that a window cuts in half shows as blanks, as many as there are cells of it
/// inside; one that is inside shows as itself, and one outside not at all.
pub proof fn law_a_character_is_never_halved(c: char, column: int, start: int, width: int)
    requires
        width > 0,
        text::cell(c) > 0,
    ensures
        ({
            let shown = glimpse(c, column, start, width);
            let first = vstd::math::max(column, start);
            let end = vstd::math::min(column + text::cell(c), start + width);
            &&& start <= column && column + text::cell(c) <= start + width ==> shown == seq![c]
            &&& end <= first ==> shown.len() == 0
            &&& end > first && (column < start || column + text::cell(c) > start + width)
                ==> shown.len() == end - first && forall|i: int|
                0 <= i < shown.len() ==> #[trigger] shown[i] == ' '
        }),
{
}

} // verus!
