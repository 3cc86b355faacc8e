//! How far along, how loud, how much is left: the numbers of the player as text and as
//! cells.

use vstd::prelude::*;

use crate::text;

verus! {

/// How many eighths of `width` cells `elapsed` out of `duration` fills, rounded down and
/// never more than all of them. A track without a length fills none.
pub open spec fn eighths_done(elapsed: nat, duration: nat, width: nat) -> nat {
    if duration == 0 || width == 0 {
        0
    } else if elapsed * (width * 8) / duration <= width * 8 {
        elapsed * (width * 8) / duration
    } else {
        width * 8
    }
}

/// Progress in eighths of a cell, so the bar can render sub-cell partial blocks.
pub fn progress_eighths(elapsed_ms: u128, duration_ms: u32, width: usize) -> (eighths: usize)
    requires
        width * 8 <= usize::MAX,
    ensures
        eighths == eighths_done(elapsed_ms as nat, duration_ms as nat, width as nat),
        eighths <= width * 8,
{
    if duration_ms == 0 || width == 0 {
        return 0;
    }
    let all: u128 = width as u128 * 8;
    match elapsed_ms.checked_mul(all) {
        Some(product) => {
            let done: u128 = product / duration_ms as u128;
            if done <= all {
                done as usize
            } else {
                all as usize
            }
        },
        None => {
            // Past what can be counted is far past the end.
            proof {
                lemma_beyond(elapsed_ms as int * all as int, duration_ms as int, all as int);
            }
            all as usize
        },
    }
}

/// What is too large to count, shared out over any length, is more than any width.
proof fn lemma_beyond(product: int, duration: int, all: int)
    requires
        product > u128::MAX,
        0 < duration <= u32::MAX,
        all <= u64::MAX,
    ensures
        product / duration > all,
{
    assert(product / duration > all) by (nonlinear_arith)
        requires
            product > 0xffff_ffff_ffff_ffff_ffff_ffff_ffff_ffff,
            0 < duration <= 0xffff_ffff,
            all <= 0xffff_ffff_ffff_ffff,
    ;
}

/// How many percent of `duration` `elapsed` is, rounded down and never above a hundred.
pub open spec fn percent_done(elapsed: nat, duration: nat) -> nat {
    if duration == 0 {
        0
    } else if elapsed * 100 / duration <= 100 {
        elapsed * 100 / duration
    } else {
        100
    }
}

pub fn percent_complete(elapsed_ms: u128, duration_ms: u32) -> (percent: u8)
    ensures
        percent == percent_done(elapsed_ms as nat, duration_ms as nat),
        percent <= 100,
{
    if duration_ms == 0 {
        return 0;
    }
    match elapsed_ms.checked_mul(100) {
        Some(product) => {
            let done: u128 = product / duration_ms as u128;
            if done <= 100 {
                done as u8
            } else {
                100
            }
        },
        None => {
            proof {
                lemma_beyond(elapsed_ms as int * 100, duration_ms as int, 100);
            }
            100
        },
    }
}

/// The countdown from `duration` after `elapsed`.
pub open spec fn countdown(elapsed: nat, duration: nat) -> Seq<char> {
    seq!['-'] + text::clock_face(
        if elapsed <= duration {
            (duration - elapsed) as nat
        } else {
            0
        },
    )
}

/// Time left in the current item, as a `-1:23` style countdown.
pub fn remaining_label(elapsed_ms: u128, duration_ms: u32) -> (label: String)
    ensures
        label@ == countdown(elapsed_ms as nat, duration_ms as nat),
{
    let remaining: u32 = if elapsed_ms <= duration_ms as u128 {
        duration_ms - elapsed_ms as u32
    } else {
        0
    };
    let mut label = String::new();
    label.push('-');
    label.append(&text::ms_to_hms(remaining));
    assert(label@ =~= countdown(elapsed_ms as nat, duration_ms as nat));
    label
}

/// How many of `cells` cells `percent` percent fill, to the nearest cell and never more
/// than all of them.
pub open spec fn meter_cells(percent: nat, cells: nat) -> nat {
    if (percent * cells + 50) / 100 <= cells {
        (percent * cells + 50) / 100
    } else {
        cells
    }
}

/// A meter of `cells` cells.
pub open spec fn meter(percent: nat, cells: nat) -> Seq<char> {
    text::repeated('\u{25ae}', meter_cells(percent, cells)) + text::repeated(
        '\u{25af}',
        (cells - meter_cells(percent, cells)) as nat,
    )
}

/// A `cells` wide meter for a 0..=100 percentage, rounded to the nearest cell.
pub fn volume_meter(percent: u16, cells: usize) -> (drawn: String)
    ensures
        drawn@ == meter(percent as nat, cells as nat),
        drawn@.len() == cells,
{
    assert(percent as int * cells as int <= 0xffff * 0xffff_ffff_ffff_ffff) by (nonlinear_arith)
        requires
            percent <= 0xffff,
            cells <= 0xffff_ffff_ffff_ffff,
    ;
    let nearest: u128 = (percent as u128 * cells as u128 + 50) / 100;
    let filled: usize = if nearest <= cells as u128 {
        nearest as usize
    } else {
        cells
    };
    let mut drawn = text::repeat('\u{25ae}', filled);
    drawn.append(&text::repeat('\u{25af}', cells - filled));
    drawn
}

/// A volume out of `u16::MAX` in percent, to the nearest.
pub open spec fn nearest_percent(volume: nat) -> nat {
    (200 * volume + 65535) / 131070
}

/// The volume in percent.
pub fn volume_percent(volume: u16) -> (percent: u16)
    ensures
        percent == nearest_percent(volume as nat),
        percent <= 100,
{
    ((200 * volume as u32 + 65535) / 131070) as u16
}

/// `line` cut to `max_width` columns, with an ellipsis in the last of them where something
/// had to go.
pub open spec fn truncated(line: Seq<char>, max_width: nat) -> Seq<char> {
    if text::text_width(line) <= max_width {
        line
    } else if max_width == 0 {
        Seq::empty()
    } else {
        text::longest_prefix(line, (max_width - 1) as nat).push('\u{2026}')
    }
}

/// Cut `line` to `max_width` columns. The characters of what was cut take no more cells
/// than that.
pub fn truncate(line: &str, max_width: usize) -> (cut: String)
    ensures
        cut@ == truncated(line@, max_width as nat),
        text::text_width(line@) > max_width ==> text::cells(cut@) <= max_width,
{
    if text::width(line) <= max_width {
        return line.to_owned();
    }
    if max_width == 0 {
        return String::new();
    }
    let mut cut = text::fitting_prefix(line, max_width - 1);
    let columns = text::cell_of('\u{2026}');
    let ghost kept = cut@;
    cut.push('\u{2026}');
    assert(cut@.drop_last() =~= kept);
    cut
}

// ---------------------------------------------------------------------------
// What the meters promise.
// ---------------------------------------------------------------------------

/// Progress never goes back while an item plays on, whatever it is drawn on.
pub proof fn law_progress_creeps_forward(elapsed: nat, later: nat, duration: nat, width: nat)
    requires
        elapsed <= later,
    ensures
        eighths_done(elapsed, duration, width) <= eighths_done(later, duration, width),
        percent_done(elapsed, duration) <= percent_done(later, duration),
{
    if duration > 0 {
        let all = width * 8;
        assert(elapsed * all <= later * all) by (nonlinear_arith)
            requires
                elapsed <= later,
        ;
        vstd::arithmetic::div_mod::lemma_div_is_ordered(
            (elapsed * all) as int,
            (later * all) as int,
            duration as int,
        );
        vstd::arithmetic::div_mod::lemma_div_is_ordered(
            (elapsed * 100) as int,
            (later * 100) as int,
            duration as int,
        );
    }
}

/// An item that has been played to its end, or past it, fills the bar and reads a hundred
/// percent; its countdown is at zero.
pub proof fn law_the_end_is_the_whole(elapsed: nat, duration: nat, width: nat)
    requires
        elapsed >= duration,
        duration > 0,
    ensures
        eighths_done(elapsed, duration, width) == width * 8,
        percent_done(elapsed, duration) == 100,
        countdown(elapsed, duration) == seq!['-'] + text::clock_face(0),
{
    let all = width * 8;
    assert(elapsed * all / duration >= all) by (nonlinear_arith)
        requires
            elapsed >= duration,
            duration > 0,
    ;
    assert(elapsed * 100 / duration >= 100) by (nonlinear_arith)
        requires
            elapsed >= duration,
            duration > 0,
    ;
}

/// The volume reads nothing at its bottom and a hundred percent at its top, and more is
/// never read as less; a meter shows that in whole cells.
pub proof fn law_the_volume_spans_its_range(volume: nat, louder: nat, cells: nat)
    requires
        volume <= louder <= 0xffff,
    ensures
        nearest_percent(0) == 0,
        nearest_percent(0xffff) == 100,
        nearest_percent(volume) <= nearest_percent(louder) <= 100,
        meter_cells(nearest_percent(volume), cells) <= meter_cells(
            nearest_percent(louder),
            cells,
        ) <= cells,
        meter_cells(0, cells) == 0,
        meter_cells(100, cells) == cells,
{
    let (less, more) = (nearest_percent(volume), nearest_percent(louder));
    assert(less * cells <= more * cells) by (nonlinear_arith)
        requires
            less <= more,
    ;
    assert(0 * cells == 0) by (nonlinear_arith);
    assert(100 * cells == cells * 100) by (nonlinear_arith);
}

/// What is drawn as played is what has been played, rounded down: to an eighth of a cell on
/// the bar, and to one percent in figures. A track without a length shows nothing.
pub proof fn law_progress_is_rounded_down(elapsed: nat, duration: nat, width: nat)
    ensures
        duration == 0 ==> eighths_done(elapsed, duration, width) == 0 && percent_done(
            elapsed,
            duration,
        ) == 0,
        elapsed < duration ==> eighths_done(elapsed, duration, width) * duration <= elapsed * (
        width * 8) && (width > 0 ==> elapsed * (width * 8) < (eighths_done(
            elapsed,
            duration,
            width,
        ) + 1) * duration),
        elapsed < duration ==> percent_done(elapsed, duration) * duration <= elapsed * 100 < (
        percent_done(elapsed, duration) + 1) * duration,
{
    if elapsed < duration {
        let all = width * 8;
        lemma_floor(elapsed * all, duration);
        lemma_floor(elapsed * 100, duration);
        assert(elapsed * all / duration <= all) by (nonlinear_arith)
            requires
                elapsed < duration,
        ;
        assert(elapsed * 100 / duration <= 100) by (nonlinear_arith)
            requires
                elapsed < duration,
        ;
        assert(0 * duration == 0) by (nonlinear_arith);
        assert(0 <= elapsed * all) by (nonlinear_arith);
    }
}

proof fn lemma_floor(total: nat, whole: nat)
    requires
        whole > 0,
    ensures
        (total / whole) * whole <= total < (total / whole + 1) * whole,
{
    assert((total / whole) * whole <= total < (total / whole + 1) * whole) by (nonlinear_arith)
        requires
            whole > 0,
    ;
}

/// The countdown is a minus sign and a clock with just the time that has not been played:
/// what has been played and what it shows make up the whole length.
pub proof fn law_the_countdown_makes_up_the_length(elapsed: nat, left: nat)
    ensures
        countdown(elapsed, elapsed + left).len() > 0,
        countdown(elapsed, elapsed + left)[0] == '-',
        countdown(elapsed, elapsed + left).skip(1) == text::clock_face(left),
        text::seconds_on(countdown(elapsed, elapsed + left).skip(1)) == left / 1000,
        countdown(elapsed + left, elapsed).skip(1) == text::clock_face(0),
{
    assert(countdown(elapsed, elapsed + left).skip(1) =~= text::clock_face(left));
    assert(countdown(elapsed + left, elapsed).skip(1) =~= text::clock_face(0));
    text::law_a_clock_reads_back(left);
}

/// A percentage of a volume is within half a percent of it, and a meter shows a percentage
/// within half a cell: its filled cells come first, the rest are empty, and together they
/// are all its cells.
pub proof fn law_a_meter_shows_its_percentage(volume: nat, percent: nat, cells: nat)
    requires
        volume <= 0xffff,
        percent <= 100,
    ensures
        -0xffff <= 2 * (nearest_percent(volume) * 0xffff - 100 * volume) <= 0xffff,
        ({
            let shown = meter(percent, cells);
            let filled = meter_cells(percent, cells);
            &&& shown.len() == cells
            &&& filled <= cells
            &&& forall|i: int|
                0 <= i < cells ==> #[trigger] shown[i] == if i < filled {
                    '\u{25ae}'
                } else {
                    '\u{25af}'
                }
            &&& -100 <= 2 * (filled * 100 - percent * cells) <= 100
        }),
{
    lemma_floor(percent * cells + 50, 100);
    assert(percent * cells <= 100 * cells) by (nonlinear_arith)
        requires
            percent <= 100,
    ;
}

/// What is cut is shown whole where it fits; otherwise a beginning of it is shown with an
/// ellipsis behind it, and in no cells nothing is.
pub proof fn law_a_cut_line_says_so(line: Seq<char>, width: nat)
    ensures
        text::text_width(line) <= width ==> truncated(line, width) == line,
        text::text_width(line) > width && width == 0 ==> truncated(line, width).len() == 0,
        text::text_width(line) > width && width > 0 ==> ({
            let cut = truncated(line, width);
            let kept = cut.drop_last();
            &&& cut.len() >= 1
            &&& cut.last() == '\u{2026}'
            &&& kept.is_prefix_of(line)
            &&& text::cells(kept) + 1 <= width
            &&& forall|more: int|
                kept.len() < more <= line.len() ==> text::cells(#[trigger] line.take(more)) + 1
                    > width
        }),
{
    if text::text_width(line) > width && width > 0 {
        let kept = text::longest_prefix(line, (width - 1) as nat);
        text::law_a_cut_keeps_as_much_as_fits(line, (width - 1) as nat);
        assert(kept.push('\u{2026}').drop_last() =~= kept);
    }
}

} // verus!
