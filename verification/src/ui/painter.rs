//! How the pieces of the now playing card are drawn, and where they can be clicked.

use vstd::prelude::*;

#[allow(unused_imports)]
use crate::canvas::{Effect, Mark};
use crate::canvas::{Ink, Region, Sheet, Vec2};
use crate::canvas;
use crate::model::Playable;
#[allow(unused_imports)]
use crate::model::PlayableModel;
use crate::text;
use crate::ui::blocks::{Block, BlockKind, Control, Segments, Stack};
#[allow(unused_imports)]
use crate::ui::blocks::{BlockModel, KindModel, SegmentModel};
use crate::ui::blocks;
use crate::ui::meters;
use crate::ui::spectrum::{Area, Band, Palette, Style};
use crate::ui::spectrum;

verus! {

/// The widest a band gets on the card.
pub const SPECTRUM_MAX_WIDTH: usize = 61;

/// A run of cells on one row that responds to the mouse. Rebuilt on every draw, so the hit
/// areas always match what is actually on screen.
#[derive(Clone, Copy, PartialEq, Eq, Structural, Debug)]
pub struct Hitbox {
    pub row: usize,
    pub start: usize,
    pub width: usize,
    pub control: Control,
}

impl Hitbox {
    /// Whether the cell at `position` belongs to the run.
    pub open spec fn covers(self, position: Vec2) -> bool {
        position.y == self.row && self.start <= position.x < vstd::math::min(
            self.start + self.width,
            usize::MAX as int,
        )
    }

    /// Whether the cell at `position` belongs to the run.
    pub fn contains(&self, position: Vec2) -> (inside: bool)
        ensures
            inside == self.covers(position),
    {
        position.y == self.row && position.x >= self.start && position.x < self.start.saturating_add(
            self.width,
        )
    }

    /// Where in the hitbox the click landed, as a fraction of its width: so many parts out
    /// of so many.
    pub fn fraction(&self, position: Vec2) -> (fraction: (usize, usize))
        requires
            self.covers(position),
        ensures
            self.width <= 1 ==> fraction == (0usize, 1usize),
            self.width > 1 ==> fraction.0 == position.x - self.start && fraction.1 == self.width
                - 1,
            fraction.0 <= fraction.1,
            fraction.1 > 0,
    {
        if self.width <= 1 {
            return (0, 1);
        }
        (position.x - self.start, self.width - 1)
    }
}

/// Whether the eighths of the cells of a screen can be counted, and the few cells that a
/// frame adds around it.
pub open spec fn drawable(size: Vec2) -> bool {
    8 * size.x <= usize::MAX - 0x1000 && 8 * size.y <= usize::MAX - 0x1000
}

/// A screen being drawn: its size, what has been printed on it so far, and the runs of
/// cells that respond to the mouse.
pub struct Painter {
    pub size: Vec2,
    pub sheet: Sheet,
    pub hitboxes: Vec<Hitbox>,
}

// ---------------------------------------------------------------------------
// A line of text.
// ---------------------------------------------------------------------------

/// A line of text centred in the visible part of `region` and cut to it.
pub open spec fn line_marks(
    size: Vec2,
    y: int,
    region: Region,
    line: Seq<char>,
    ink: Ink,
    bold: bool,
) -> Seq<Mark> {
    match canvas::visible_part(region, size.x) {
        Some(part) if y < size.y => {
            let cut = meters::truncated(line, part.width as nat);
            seq![
                canvas::styled_mark(
                    part.centered(text::text_width(cut) as int),
                    y,
                    cut,
                    ink,
                    if bold {
                        Effect::Bold
                    } else {
                        Effect::Simple
                    },
                ),
            ]
        },
        _ => Seq::empty(),
    }
}

// ---------------------------------------------------------------------------
// Runs of text on one line.
// ---------------------------------------------------------------------------

/// The columns that `segments` take side by side.
pub open spec fn segments_width(segments: Seq<SegmentModel>) -> nat
    decreases segments.len(),
{
    if segments.len() == 0 {
        0
    } else {
        segments_width(segments.drop_last()) + text::text_width(segments.last().text) as nat
    }
}

/// The text of `segments` without the gaps between them.
pub open spec fn flattened(segments: Seq<SegmentModel>) -> Seq<char>
    decreases segments.len(),
{
    if segments.len() == 0 {
        Seq::empty()
    } else {
        flattened(segments.drop_last()) + segments.last().text
    }
}

/// `segments` side by side from column `x` on.
pub open spec fn run_marks(segments: Seq<SegmentModel>, x: int, y: int) -> Seq<Mark>
    decreases segments.len(),
{
    if segments.len() == 0 {
        Seq::empty()
    } else {
        let earlier = segments.drop_last();
        run_marks(earlier, x, y).push(
            canvas::mark(
                x + segments_width(earlier),
                y,
                segments.last().text,
                segments.last().ink,
            ),
        )
    }
}

/// Where those of `segments` can be clicked that do something.
pub open spec fn run_hits(segments: Seq<SegmentModel>, x: int, y: int) -> Seq<Hitbox>
    decreases segments.len(),
{
    if segments.len() == 0 {
        Seq::empty()
    } else {
        let earlier = segments.drop_last();
        match segments.last().control {
            Some(control) => run_hits(earlier, x, y).push(
                Hitbox {
                    row: y as usize,
                    start: (x + segments_width(earlier)) as usize,
                    width: text::text_width(segments.last().text),
                    control,
                },
            ),
            None => run_hits(earlier, x, y),
        }
    }
}

/// A line of differently styled runs, centred as a whole. Where they are too wide for the
/// region, they are printed as one cut line in the first one's colour.
pub open spec fn segments_marks(
    size: Vec2,
    y: int,
    region: Region,
    segments: Seq<SegmentModel>,
) -> Seq<Mark> {
    match canvas::visible_part(region, size.x) {
        Some(part) if y < size.y => {
            let total = segments_width(segments);
            if total > part.width {
                let ink = if segments.len() == 0 {
                    Ink::Primary
                } else {
                    segments[0].ink
                };
                line_marks(size, y, part, flattened(segments), ink, false)
            } else {
                run_marks(segments, part.centered(total as int), y)
            }
        },
        _ => Seq::empty(),
    }
}

/// Where a line of runs can be clicked: nowhere, if it had to be cut.
pub open spec fn segments_hits(
    size: Vec2,
    y: int,
    region: Region,
    segments: Seq<SegmentModel>,
) -> Seq<Hitbox> {
    match canvas::visible_part(region, size.x) {
        Some(part) if y < size.y && segments_width(segments) <= part.width => run_hits(
            segments,
            part.centered(segments_width(segments) as int),
            y,
        ),
        _ => Seq::empty(),
    }
}

// ---------------------------------------------------------------------------
// The progress bar.
// ---------------------------------------------------------------------------

/// The glyph that fills the leftmost `eighths` eighths of a cell.
pub open spec fn partial_glyph(eighths: nat) -> char {
    if eighths <= 1 {
        '\u{258f}'
    } else if eighths == 2 {
        '\u{258e}'
    } else if eighths == 3 {
        '\u{258d}'
    } else if eighths == 4 {
        '\u{258c}'
    } else if eighths == 5 {
        '\u{258b}'
    } else if eighths == 6 {
        '\u{258a}'
    } else if eighths == 7 {
        '\u{2589}'
    } else {
        '\u{2588}'
    }
}

fn partial(eighths: usize) -> (glyph: char)
    ensures
        glyph == partial_glyph(eighths as nat),
{
    if eighths <= 1 {
        '\u{258f}'
    } else if eighths == 2 {
        '\u{258e}'
    } else if eighths == 3 {
        '\u{258d}'
    } else if eighths == 4 {
        '\u{258c}'
    } else if eighths == 5 {
        '\u{258b}'
    } else if eighths == 6 {
        '\u{258a}'
    } else if eighths == 7 {
        '\u{2589}'
    } else {
        '\u{2588}'
    }
}

/// The progress bar over the visible part of `region`: its track, what has been played in
/// eighths of a cell, and a playhead where a click would land.
pub open spec fn progress_marks(
    size: Vec2,
    row: int,
    region: Region,
    elapsed: nat,
    duration: nat,
) -> Seq<Mark> {
    match canvas::visible_part(region, size.x) {
        Some(part) if row < size.y => {
            let start = part.start as int;
            let width = part.width as nat;
            let eighths = meters::eighths_done(elapsed, duration, width);
            let filled = eighths / 8;
            let remainder = eighths % 8;
            seq![canvas::mark(start, row, text::repeated('\u{2508}', width), Ink::Secondary)] + (
            if filled > 0 {
                seq![canvas::mark(start, row, text::repeated('\u{2588}', filled), Ink::Accent)]
            } else {
                Seq::empty()
            }) + (if remainder > 0 && filled < width {
                seq![
                    canvas::mark(
                        start + filled,
                        row,
                        seq![partial_glyph(remainder)],
                        Ink::Accent,
                    ),
                ]
            } else {
                Seq::empty()
            }) + (if width > 1 {
                seq![
                    canvas::mark(
                        start + vstd::math::min(filled as int, width - 1),
                        row,
                        seq!['\u{25cf}'],
                        Ink::Playing,
                    ),
                ]
            } else {
                Seq::empty()
            })
        },
        _ => Seq::empty(),
    }
}

/// The progress bar can be clicked over its whole length.
pub open spec fn progress_hits(size: Vec2, row: int, region: Region) -> Seq<Hitbox> {
    match canvas::visible_part(region, size.x) {
        Some(part) if row < size.y => seq![
            Hitbox {
                row: row as usize,
                start: part.start,
                width: part.width,
                control: Control::Seek,
            },
        ],
        _ => Seq::empty(),
    }
}

// ---------------------------------------------------------------------------
// The times under it.
// ---------------------------------------------------------------------------

/// A time in milliseconds on a clock that stops at what 32 bits hold.
pub open spec fn clock_label(elapsed: nat) -> Seq<char> {
    text::clock_face(
        if elapsed <= u32::MAX {
            elapsed
        } else {
            u32::MAX as nat
        },
    )
}

/// `27%`
pub open spec fn percent_label(elapsed: nat, duration: nat) -> Seq<char> {
    text::digits(meters::percent_done(elapsed, duration)) + "%"@
}

/// `27%  ·  -2:43`
pub open spec fn detail_label(elapsed: nat, duration: nat) -> Seq<char> {
    percent_label(elapsed, duration) + "  \u{b7}  "@ + meters::countdown(elapsed, duration)
}

/// The elapsed time at the left end, the length at the right end, and between them as much
/// detail as the gap allows.
pub open spec fn times_marks(
    size: Vec2,
    row: int,
    region: Region,
    elapsed: nat,
    duration: nat,
) -> Seq<Mark> {
    match canvas::visible_part(region, size.x) {
        Some(part) if row < size.y => {
            let left = clock_label(elapsed);
            let right = text::clock_face(duration);
            let edges = text::text_width(left) + text::text_width(right) + 4;
            let detail = detail_label(elapsed, duration);
            let percent = percent_label(elapsed, duration);
            let right_start = if part.end() >= text::text_width(right) {
                part.end() - text::text_width(right)
            } else {
                0
            };
            seq![
                canvas::mark(part.start as int, row, left, Ink::Secondary),
                canvas::mark(right_start, row, right, Ink::Secondary),
            ] + (if text::text_width(detail) + edges <= part.width {
                seq![
                    canvas::mark(
                        part.centered(text::text_width(detail) as int),
                        row,
                        detail,
                        Ink::Accent,
                    ),
                ]
            } else if text::text_width(percent) + edges <= part.width {
                seq![
                    canvas::mark(
                        part.centered(text::text_width(percent) as int),
                        row,
                        percent,
                        Ink::Accent,
                    ),
                ]
            } else {
                Seq::empty()
            })
        },
        _ => Seq::empty(),
    }
}

// ---------------------------------------------------------------------------
// The frame of the card.
// ---------------------------------------------------------------------------

/// `label` laid into a border, with a blank cell on either side of it.
pub open spec fn inlay_marks(x: int, y: int, label: Seq<char>, ink: Ink) -> Seq<Mark> {
    seq![
        canvas::mark(x, y, " "@, Ink::Accent),
        canvas::mark(x + text::text_width(label) + 1, y, " "@, Ink::Accent),
        canvas::mark(x + 1, y, label, ink),
    ]
}

/// The sides of a frame over `rows` rows below `top`.
pub open spec fn side_marks(left: int, right: int, top: int, rows: nat) -> Seq<Mark>
    decreases rows,
{
    if rows == 0 {
        Seq::empty()
    } else {
        let row = top + rows;
        side_marks(left, right, top, (rows - 1) as nat) + seq![
            canvas::mark(left, row, "\u{2502}"@, Ink::Accent),
            canvas::mark(right, row, "\u{2502}"@, Ink::Accent),
        ]
    }
}

/// A corner, a rule of `length` cells and a corner.
pub open spec fn edge_marks(
    left: int,
    right: int,
    row: int,
    first: Seq<char>,
    last: Seq<char>,
    length: int,
) -> Seq<Mark> {
    seq![canvas::mark(left, row, first, Ink::Accent)] + (if length > 0 {
        seq![
            canvas::mark(left + 1, row, text::repeated('\u{2500}', length as nat), Ink::Accent),
        ]
    } else {
        Seq::empty()
    }) + seq![canvas::mark(right, row, last, Ink::Accent)]
}

/// The corners of a card on the screen.
#[derive(Clone, Copy, PartialEq, Eq, Structural, Debug)]
pub struct Rect {
    pub left: usize,
    pub top: usize,
    pub right: usize,
    pub bottom: usize,
}

impl Rect {
    /// The columns from the left edge to the right one, both counted.
    pub open spec fn columns(self) -> int {
        if self.right >= self.left {
            self.right - self.left + 1
        } else {
            1
        }
    }
}

/// The rounded frame itself.
pub open spec fn frame_marks(rect: Rect) -> Seq<Mark> {
    let left = rect.left as int;
    let right = rect.right as int;
    edge_marks(left, right, rect.top as int, "\u{256d}"@, "\u{256e}"@, rect.columns() - 2)
        + side_marks(
        left,
        right,
        rect.top as int,
        if rect.bottom > rect.top {
            (rect.bottom - rect.top - 1) as nat
        } else {
            0
        },
    ) + edge_marks(left, right, rect.bottom as int, "\u{2570}"@, "\u{256f}"@, rect.columns() - 2)
}

/// The chip as it fits into the top border.
pub open spec fn chip_text(rect: Rect, chip: Seq<char>) -> Seq<char> {
    meters::truncated(
        chip,
        if rect.columns() >= 8 {
            (rect.columns() - 8) as nat
        } else {
            0
        },
    )
}

/// Whether the chip is shown at all.
pub open spec fn chip_shown(rect: Rect, chip: Seq<char>) -> bool {
    let label = chip_text(rect, chip);
    label.len() > 0 && rect.columns() > text::text_width(label) + 8
}

/// The column the chip starts at.
pub open spec fn chip_start(rect: Rect, chip: Seq<char>) -> int {
    rect.left + (rect.columns() - text::text_width(chip_text(rect, chip)) - 2) / 2
}

/// The last column of the chip, or the corner where there is none.
pub open spec fn chip_end(rect: Rect, chip: Seq<char>) -> int {
    if chip_shown(rect, chip) {
        chip_start(rect, chip) + text::text_width(chip_text(rect, chip)) + 1
    } else {
        rect.left as int
    }
}

/// Where a label of `width` cells starts that keeps `margin` cells to the right edge.
pub open spec fn right_label_start(rect: Rect, width: int, margin: int) -> int {
    if rect.right >= width + margin {
        rect.right - (width + margin)
    } else {
        0
    }
}

/// A card: its frame, the chip in the middle of the top border, the badge at its right end
/// where the two do not meet, and the footer in the bottom border.
pub open spec fn card_marks(
    rect: Rect,
    chip: Seq<char>,
    badge: Option<Seq<char>>,
    footer: Option<Seq<char>>,
) -> Seq<Mark> {
    frame_marks(rect) + (if chip_shown(rect, chip) {
        inlay_marks(
            chip_start(rect, chip),
            rect.top as int,
            chip_text(rect, chip),
            Ink::Playing,
        )
    } else {
        Seq::empty()
    }) + (match badge {
        Some(badge) if right_label_start(rect, text::text_width(badge) as int, 3) > chip_end(
            rect,
            chip,
        ) + 1 => inlay_marks(
            right_label_start(rect, text::text_width(badge) as int, 3),
            rect.top as int,
            badge,
            Ink::Playing,
        ),
        _ => Seq::empty(),
    }) + (match footer {
        Some(footer) if right_label_start(rect, text::text_width(footer) as int, 4) > rect.left
            + 2 => inlay_marks(
            right_label_start(rect, text::text_width(footer) as int, 4),
            rect.bottom as int,
            footer,
            Ink::Secondary,
        ),
        _ => Seq::empty(),
    })
}

/// A rule across the card.
pub open spec fn rule_marks(size: Vec2, row: int, left: int, right: int) -> Seq<Mark> {
    if row >= size.y || right <= left + 1 {
        Seq::empty()
    } else {
        seq![
            canvas::mark(left, row, "\u{251c}"@, Ink::Secondary),
            canvas::mark(
                left + 1,
                row,
                text::repeated('\u{2500}', (right - left - 1) as nat),
                Ink::Secondary,
            ),
            canvas::mark(right, row, "\u{2524}"@, Ink::Secondary),
        ]
    }
}

// ---------------------------------------------------------------------------
// The band.
// ---------------------------------------------------------------------------

/// The colours of the band on the card.
pub open spec fn card_palette(live: bool) -> Palette {
    Palette { hot: Ink::Playing, warm: Ink::Accent, quiet: Ink::Secondary, live }
}

/// How wide the band is in a region of `width` cells.
pub open spec fn band_width(width: usize) -> usize {
    if width < SPECTRUM_MAX_WIDTH {
        width
    } else {
        SPECTRUM_MAX_WIDTH
    }
}

/// Where the band goes: centred in the visible part of the region.
pub open spec fn band_area(part: Region, top: int, rows: usize) -> Area {
    Area {
        origin: part.centered(band_width(part.width) as int) as usize,
        top: top as usize,
        width: band_width(part.width),
        rows,
    }
}

/// The band on the card.
pub open spec fn band_marks(
    size: Vec2,
    top: int,
    rows: usize,
    region: Region,
    band: Band,
    live: bool,
) -> Seq<Mark> {
    match canvas::visible_part(region, size.x) {
        Some(part) => spectrum::drawn(
            band,
            band_area(part, top, rows),
            card_palette(live),
            Style::Bars,
            size.y as int,
        ),
        None => Seq::empty(),
    }
}

impl Painter {
    /// A screen of `size` with nothing on it.
    pub fn new(size: Vec2) -> (painter: Self)
        ensures
            painter.size == size,
            painter.sheet@ == Seq::<Mark>::empty(),
            painter.hitboxes@ == Seq::<Hitbox>::empty(),
    {
        Painter { size, sheet: Sheet::new(), hitboxes: Vec::new() }
    }

    /// The visible part of `region` on row `y`, if the screen shows any of it.
    fn shown(&self, y: usize, region: Region) -> (part: Option<Region>)
        ensures
            y >= self.size.y ==> part is None,
            y < self.size.y ==> part == canvas::visible_part(region, self.size.x),
            part matches Some(part) ==> part.end() <= self.size.x && part.width > 0,
    {
        if y < self.size.y {
            region.visible(self.size.x)
        } else {
            None
        }
    }

    /// Draw a line of text, centred in `region`.
    pub fn draw_line(&mut self, y: usize, region: Region, line: &str, ink: Ink, bold: bool)
        ensures
            final(self).size == old(self).size,
            final(self).hitboxes@ == old(self).hitboxes@,
            final(self).sheet@ == old(self).sheet@ + line_marks(
                old(self).size,
                y as int,
                region,
                line@,
                ink,
                bold,
            ),
    {
        if let Some(region) = region.visible(self.size.x) {
            if y < self.size.y {
                let cut = meters::truncate(line, region.width);
                let x = region.center(text::width(&cut));
                let effect = if bold {
                    Effect::Bold
                } else {
                    Effect::Simple
                };
                self.sheet.print_styled(x, y, &cut, ink, effect);
            }
        }
        assert(self.sheet@ =~= old(self).sheet@ + line_marks(
            old(self).size,
            y as int,
            region,
            line@,
            ink,
            bold,
        ));
    }

    /// Draw differently styled runs of text as one centered line, so key hints can highlight
    /// the key without splitting the line into separately aligned pieces.
    pub fn draw_segments(&mut self, y: usize, region: Region, segments: &Segments)
        ensures
            final(self).size == old(self).size,
            final(self).sheet@ == old(self).sheet@ + segments_marks(
                old(self).size,
                y as int,
                region,
                segments@,
            ),
            final(self).hitboxes@ == old(self).hitboxes@ + segments_hits(
                old(self).size,
                y as int,
                region,
                segments@,
            ),
    {
        let part = self.shown(y, region);
        if part.is_none() {
            assert(self.sheet@ =~= old(self).sheet@ + Seq::<Mark>::empty());
            assert(self.hitboxes@ =~= old(self).hitboxes@ + Seq::<Hitbox>::empty());
            return;
        }
        let part = part.unwrap();
        match width_within(segments, part.width) {
            None => {
                // Too narrow to place the runs individually: flatten and truncate, and
                // register no hit areas, since none of them would line up any more.
                let ink = if segments.list.len() == 0 {
                    Ink::Primary
                } else {
                    segments.list[0].ink
                };
                assert(segments@.len() > 0 ==> segments@[0].ink == segments.list@[0].ink);
                self.draw_line(y, part, &flatten(segments), ink, false);
                assert(self.hitboxes@ =~= old(self).hitboxes@ + Seq::<Hitbox>::empty());
            },
            Some(total) => {
                let start = part.center(total);
                self.draw_runs(start, y, segments, total);
            },
        }
    }

    /// Draw `segments`, which take `total` columns, side by side from column `start` on.
    fn draw_runs(&mut self, start: usize, y: usize, segments: &Segments, total: usize)
        requires
            total == segments_width(segments@),
            start + total <= usize::MAX,
        ensures
            final(self).size == old(self).size,
            final(self).sheet@ == old(self).sheet@ + run_marks(segments@, start as int, y as int),
            final(self).hitboxes@ == old(self).hitboxes@ + run_hits(
                segments@,
                start as int,
                y as int,
            ),
    {
        let mut x: usize = start;
        assert(segments@.take(0) =~= Seq::empty());
        for i in 0..segments.list.len()
            invariant
                total == segments_width(segments@),
                start + total <= usize::MAX,
                segments@.len() == segments.list@.len(),
                x == start + segments_width(segments@.take(i as int)),
                self.size == old(self).size,
                self.sheet@ =~= old(self).sheet@ + run_marks(
                    segments@.take(i as int),
                    start as int,
                    y as int,
                ),
                self.hitboxes@ =~= old(self).hitboxes@ + run_hits(
                    segments@.take(i as int),
                    start as int,
                    y as int,
                ),
        {
            proof {
                lemma_width_take(segments@, i + 1);
                assert(segments@.take(i + 1).drop_last() =~= segments@.take(i as int));
                assert(segments@.take(i + 1).last() == segments.list@[i as int]@);
            }
            let segment = &segments.list[i];
            self.sheet.print(x, y, &segment.text, segment.ink);
            let width = text::width(&segment.text);
            if let Some(control) = segment.control {
                self.hitboxes.push(Hitbox { row: y, start: x, width, control });
            }
            x = x + width;
        }
        assert(segments@.take(segments@.len() as int) =~= segments@);
    }

    /// Draw the progress bar, and make it clickable.
    pub fn draw_progress(&mut self, row: usize, region: Region, elapsed_ms: u128, duration_ms: u32)
        requires
            8 * old(self).size.x <= usize::MAX,
        ensures
            final(self).size == old(self).size,
            final(self).sheet@ == old(self).sheet@ + progress_marks(
                old(self).size,
                row as int,
                region,
                elapsed_ms as nat,
                duration_ms as nat,
            ),
            final(self).hitboxes@ == old(self).hitboxes@ + progress_hits(
                old(self).size,
                row as int,
                region,
            ),
    {
        let part = self.shown(row, region);
        if part.is_none() {
            assert(self.sheet@ =~= old(self).sheet@ + Seq::<Mark>::empty());
            assert(self.hitboxes@ =~= old(self).hitboxes@ + Seq::<Hitbox>::empty());
            return;
        }
        let part = part.unwrap();
        let start: usize = part.start;
        let width: usize = part.width;
        let eighths = meters::progress_eighths(elapsed_ms, duration_ms, width);
        let filled: usize = eighths / 8;
        let remainder: usize = eighths % 8;
        self.sheet.print(start, row, &text::repeat('\u{2508}', width), Ink::Secondary);
        if filled > 0 {
            self.sheet.print(start, row, &text::repeat('\u{2588}', filled), Ink::Accent);
        }
        if remainder > 0 && filled < width {
            let cell = text::repeat(partial(remainder), 1);
            assert(cell@ =~= seq![partial_glyph(remainder as nat)]);
            self.sheet.print(start + filled, row, &cell, Ink::Accent);
        }
        // A playhead makes the seek target obvious, and marks where a click will land.
        if width > 1 {
            let head: usize = if filled < width - 1 {
                filled
            } else {
                width - 1
            };
            let cell = text::repeat('\u{25cf}', 1);
            assert(cell@ =~= seq!['\u{25cf}']);
            self.sheet.print(start + head, row, &cell, Ink::Playing);
        }
        self.hitboxes.push(Hitbox { row, start, width, control: Control::Seek });
        assert(self.sheet@ =~= old(self).sheet@ + progress_marks(
            old(self).size,
            row as int,
            region,
            elapsed_ms as nat,
            duration_ms as nat,
        ));
        assert(self.hitboxes@ =~= old(self).hitboxes@ + progress_hits(
            old(self).size,
            row as int,
            region,
        ));
    }

    /// Draw the times under the progress bar.
    pub fn draw_times(&mut self, row: usize, region: Region, elapsed_ms: u128, duration_ms: u32)
        ensures
            final(self).size == old(self).size,
            final(self).hitboxes@ == old(self).hitboxes@,
            final(self).sheet@ == old(self).sheet@ + times_marks(
                old(self).size,
                row as int,
                region,
                elapsed_ms as nat,
                duration_ms as nat,
            ),
    {
        let part = self.shown(row, region);
        if part.is_none() {
            assert(self.sheet@ =~= old(self).sheet@ + Seq::<Mark>::empty());
            return;
        }
        let part = part.unwrap();
        let capped: u32 = if elapsed_ms <= u32::MAX as u128 {
            elapsed_ms as u32
        } else {
            u32::MAX
        };
        let elapsed_label = text::ms_to_hms(capped);
        let duration_label = text::ms_to_hms(duration_ms);
        self.sheet.print(part.start, row, &elapsed_label, Ink::Secondary);
        let end: usize = part.start + part.width;
        let duration_x: usize = end.saturating_sub(text::width(&duration_label));
        self.sheet.print(duration_x, row, &duration_label, Ink::Secondary);

        // Between the two ends, show as much detail as the remaining gap allows.
        let mut percent = text::decimal(meters::percent_complete(elapsed_ms, duration_ms) as u128);
        percent.append("%");
        let mut detail = percent.clone();
        detail.append("  \u{b7}  ");
        detail.append(&meters::remaining_label(elapsed_ms, duration_ms));
        let edges: u128 = text::width(&elapsed_label) as u128 + text::width(&duration_label) as u128
            + 4;
        let detail_width = text::width(&detail);
        let percent_width = text::width(&percent);
        if detail_width as u128 + edges <= part.width as u128 {
            self.sheet.print(part.center(detail_width), row, &detail, Ink::Accent);
        } else if percent_width as u128 + edges <= part.width as u128 {
            self.sheet.print(part.center(percent_width), row, &percent, Ink::Accent);
        }
        assert(self.sheet@ =~= old(self).sheet@ + times_marks(
            old(self).size,
            row as int,
            region,
            elapsed_ms as nat,
            duration_ms as nat,
        ));
    }

    /// A corner, a rule and a corner.
    fn draw_edge(&mut self, rect: Rect, row: usize, first: &str, last: &str)
        requires
            rect.right < usize::MAX,
            rect.left < usize::MAX,
        ensures
            final(self).size == old(self).size,
            final(self).hitboxes@ == old(self).hitboxes@,
            final(self).sheet@ == old(self).sheet@ + edge_marks(
                rect.left as int,
                rect.right as int,
                row as int,
                first@,
                last@,
                rect.columns() - 2,
            ),
    {
        let card_width: usize = rect.right.saturating_sub(rect.left) + 1;
        self.sheet.print(rect.left, row, first, Ink::Accent);
        if card_width > 2 {
            self.sheet.print(
                rect.left + 1,
                row,
                &text::repeat('\u{2500}', card_width - 2),
                Ink::Accent,
            );
        }
        self.sheet.print(rect.right, row, last, Ink::Accent);
        assert(self.sheet@ =~= old(self).sheet@ + edge_marks(
            rect.left as int,
            rect.right as int,
            row as int,
            first@,
            last@,
            rect.columns() - 2,
        ));
    }

    /// The rounded frame of a card.
    fn draw_frame(&mut self, rect: Rect)
        requires
            rect.right < usize::MAX,
            rect.left < usize::MAX,
        ensures
            final(self).size == old(self).size,
            final(self).hitboxes@ == old(self).hitboxes@,
            final(self).sheet@ == old(self).sheet@ + frame_marks(rect),
    {
        self.draw_edge(rect, rect.top, "\u{256d}", "\u{256e}");
        let ghost upper = self.sheet@;
        let rows: usize = if rect.bottom > rect.top {
            rect.bottom - rect.top - 1
        } else {
            0
        };
        for i in 0..rows
            invariant
                rows == if rect.bottom > rect.top {
                    rect.bottom - rect.top - 1
                } else {
                    0
                },
                self.size == old(self).size,
                self.hitboxes@ == old(self).hitboxes@,
                self.sheet@ =~= upper + side_marks(
                    rect.left as int,
                    rect.right as int,
                    rect.top as int,
                    i as nat,
                ),
        {
            let row: usize = rect.top + 1 + i;
            self.sheet.print(rect.left, row, "\u{2502}", Ink::Accent);
            self.sheet.print(rect.right, row, "\u{2502}", Ink::Accent);
        }
        self.draw_edge(rect, rect.bottom, "\u{2570}", "\u{256f}");
        assert(self.sheet@ =~= old(self).sheet@ + frame_marks(rect));
    }

    /// Print `label` into a border run, padded by a blank cell on either side so the label
    /// reads as inlaid rather than as part of the line.
    fn inlay(&mut self, x: usize, y: usize, label: &str, ink: Ink)
        requires
            x + text::text_width(label@) + 1 <= usize::MAX,
        ensures
            final(self).size == old(self).size,
            final(self).hitboxes@ == old(self).hitboxes@,
            final(self).sheet@ == old(self).sheet@ + inlay_marks(x as int, y as int, label@, ink),
    {
        self.sheet.print(x, y, " ", Ink::Accent);
        self.sheet.print(x + text::width(label) + 1, y, " ", Ink::Accent);
        self.sheet.print(x + 1, y, label, ink);
        assert(self.sheet@ =~= old(self).sheet@ + inlay_marks(x as int, y as int, label@, ink));
    }

    /// Rounded card with the transport state inlaid into the top border, an optional badge
    /// in the top right, and an optional footer label in the bottom border.
    pub fn draw_card(&mut self, rect: Rect, chip: &str, badge: Option<&str>, footer: Option<&str>)
        requires
            rect.left <= usize::MAX - 0x1000,
            rect.right <= usize::MAX - 0x1000,
        ensures
            final(self).size == old(self).size,
            final(self).hitboxes@ == old(self).hitboxes@,
            final(self).sheet@ == old(self).sheet@ + card_marks(
                rect,
                chip@,
                badge_model(badge),
                badge_model(footer),
            ),
    {
        self.draw_frame(rect);
        let card_width: usize = rect.right.saturating_sub(rect.left) + 1;
        let label = meters::truncate(chip, card_width.saturating_sub(8));
        let label_width = text::width(&label);
        let mut end: usize = rect.left;
        if !label.as_str().is_empty() && card_width > 8 && label_width < card_width - 8 {
            let offset: usize = rect.left + (card_width - label_width - 2) / 2;
            end = offset + label_width + 1;
            self.inlay(offset, rect.top, &label, Ink::Playing);
        }
        assert(end == chip_end(rect, chip@));
        let ghost chipped = self.sheet@;
        assert(chipped =~= old(self).sheet@ + (frame_marks(rect) + (if chip_shown(rect, chip@) {
            inlay_marks(
                chip_start(rect, chip@),
                rect.top as int,
                chip_text(rect, chip@),
                Ink::Playing,
            )
        } else {
            Seq::empty()
        })));
        if let Some(badge) = badge {
            let width = text::width(badge);
            let start: usize = rect.right.saturating_sub(width.saturating_add(3));
            if start > end + 1 {
                self.inlay(start, rect.top, badge, Ink::Playing);
            }
        }
        let ghost badged = self.sheet@;
        if let Some(footer) = footer {
            let width = text::width(footer);
            let start: usize = rect.right.saturating_sub(width.saturating_add(4));
            if start > rect.left + 2 {
                self.inlay(start, rect.bottom, footer, Ink::Secondary);
            }
        }
        assert(self.sheet@ =~= old(self).sheet@ + card_marks(
            rect,
            chip@,
            badge_model(badge),
            badge_model(footer),
        ));
    }

    /// A rule from one edge of the card to the other.
    pub fn draw_rule(&mut self, row: usize, left: usize, right: usize)
        ensures
            final(self).size == old(self).size,
            final(self).hitboxes@ == old(self).hitboxes@,
            final(self).sheet@ == old(self).sheet@ + rule_marks(
                old(self).size,
                row as int,
                left as int,
                right as int,
            ),
    {
        if row < self.size.y && right > left && right - left > 1 {
            self.sheet.print(left, row, "\u{251c}", Ink::Secondary);
            self.sheet.print(
                left + 1,
                row,
                &text::repeat('\u{2500}', right - left - 1),
                Ink::Secondary,
            );
            self.sheet.print(right, row, "\u{2524}", Ink::Secondary);
        }
        assert(self.sheet@ =~= old(self).sheet@ + rule_marks(
            old(self).size,
            row as int,
            left as int,
            right as int,
        ));
    }

    /// Draw the band, centred in `region`.
    pub fn draw_spectrum(
        &mut self,
        top: usize,
        rows: usize,
        region: Region,
        band: &Band,
        live: bool,
    )
        requires
            band.aligned(),
            drawable(old(self).size),
            top + 8 * rows <= usize::MAX,
        ensures
            final(self).size == old(self).size,
            final(self).hitboxes@ == old(self).hitboxes@,
            final(self).sheet@ == old(self).sheet@ + band_marks(
                old(self).size,
                top as int,
                rows,
                region,
                *band,
                live,
            ),
    {
        if let Some(part) = region.visible(self.size.x) {
            let width: usize = if part.width < SPECTRUM_MAX_WIDTH {
                part.width
            } else {
                SPECTRUM_MAX_WIDTH
            };
            let area = Area { origin: part.center(width), top, width, rows };
            let palette = Palette {
                hot: Ink::Playing,
                warm: Ink::Accent,
                quiet: Ink::Secondary,
                live,
            };
            spectrum::draw(&mut self.sheet, self.size.y, band, area, palette, Style::Bars);
        } else {
            assert(self.sheet@ =~= old(self).sheet@ + Seq::<Mark>::empty());
        }
    }
}

// ---------------------------------------------------------------------------
// A stack of blocks.
// ---------------------------------------------------------------------------

/// Where a stack of blocks is drawn: the first row, the number of rows available, the slice
/// content is centered in, and the card edges that a rule spans.
#[derive(Clone, Copy)]
pub struct Frame {
    pub top: usize,
    pub height: usize,
    pub region: Region,
    pub edges: Option<(usize, usize)>,
}

/// What the blocks of a stack have in common when they are drawn.
pub struct Scene {
    pub size: Vec2,
    pub region: Region,
    pub edges: Option<(usize, usize)>,
    pub elapsed: nat,
    pub playable: Option<PlayableModel>,
    pub band: Band,
    pub live: bool,
}

/// What one block puts on the screen from row `row` on.
pub open spec fn block_marks(made: BlockModel, row: int, scene: Scene) -> Seq<Mark> {
    match made.kind {
        KindModel::Blank => Seq::empty(),
        KindModel::Spectrum(rows) => band_marks(
            scene.size,
            row,
            rows,
            scene.region,
            scene.band,
            scene.live,
        ),
        KindModel::Line { text, ink, bold } => line_marks(
            scene.size,
            row,
            scene.region,
            text,
            ink,
            bold,
        ),
        KindModel::Segments(segments) => segments_marks(scene.size, row, scene.region, segments),
        KindModel::Progress => match scene.playable {
            Some(playable) => progress_marks(
                scene.size,
                row,
                scene.region,
                scene.elapsed,
                playable.duration() as nat,
            ),
            None => Seq::empty(),
        },
        KindModel::Times => match scene.playable {
            Some(playable) => times_marks(
                scene.size,
                row,
                scene.region,
                scene.elapsed,
                playable.duration() as nat,
            ),
            None => Seq::empty(),
        },
        KindModel::Rule => match scene.edges {
            Some((left, right)) => rule_marks(scene.size, row, left as int, right as int),
            None => Seq::empty(),
        },
    }
}

/// Where one block can be clicked.
pub open spec fn block_hits(made: BlockModel, row: int, scene: Scene) -> Seq<Hitbox> {
    match made.kind {
        KindModel::Segments(segments) => segments_hits(scene.size, row, scene.region, segments),
        KindModel::Progress if scene.playable is Some => progress_hits(
            scene.size,
            row,
            scene.region,
        ),
        _ => Seq::empty(),
    }
}

/// What a stack of blocks puts on the screen when its first row is `top`.
pub open spec fn stack_marks(made: Seq<BlockModel>, top: int, scene: Scene) -> Seq<Mark>
    decreases made.len(),
{
    if made.len() == 0 {
        Seq::empty()
    } else {
        let upper = made.drop_last();
        stack_marks(upper, top, scene) + block_marks(
            made.last(),
            top + blocks::total_height(upper),
            scene,
        )
    }
}

/// Where a stack of blocks can be clicked.
pub open spec fn stack_hits(made: Seq<BlockModel>, top: int, scene: Scene) -> Seq<Hitbox>
    decreases made.len(),
{
    if made.len() == 0 {
        Seq::empty()
    } else {
        let upper = made.drop_last();
        stack_hits(upper, top, scene) + block_hits(
            made.last(),
            top + blocks::total_height(upper),
            scene,
        )
    }
}

/// The item that is drawn, as the contracts speak of it.
pub open spec fn shown_item(playable: Option<&Playable>) -> Option<PlayableModel> {
    match playable {
        Some(playable) => Some(playable@),
        None => None,
    }
}

/// What the blocks have in common in `frame`.
pub open spec fn scene_of(
    size: Vec2,
    frame: Frame,
    playable: Option<PlayableModel>,
    elapsed: nat,
    band: Band,
    live: bool,
) -> Scene {
    Scene { size, region: frame.region, edges: frame.edges, elapsed, playable, band, live }
}

impl Painter {
    /// Draw one block with its first row at `row`.
    fn draw_block(
        &mut self,
        made: &Block,
        row: usize,
        frame: Frame,
        playable: Option<&Playable>,
        elapsed: u128,
        band: &Band,
        live: bool,
    )
        requires
            band.aligned(),
            drawable(old(self).size),
            row + 8 * made@.height() <= usize::MAX,
        ensures
            final(self).size == old(self).size,
            final(self).sheet@ == old(self).sheet@ + block_marks(
                made@,
                row as int,
                scene_of(
                    old(self).size,
                    frame,
                    shown_item(playable),
                    elapsed as nat,
                    *band,
                    live,
                ),
            ),
            final(self).hitboxes@ == old(self).hitboxes@ + block_hits(
                made@,
                row as int,
                scene_of(
                    old(self).size,
                    frame,
                    shown_item(playable),
                    elapsed as nat,
                    *band,
                    live,
                ),
            ),
    {
        match &made.kind {
            BlockKind::Blank => {},
            BlockKind::Spectrum(rows) => {
                self.draw_spectrum(row, *rows, frame.region, band, live);
            },
            BlockKind::Line { text, ink, bold } => {
                self.draw_line(row, frame.region, text, *ink, *bold);
            },
            BlockKind::Segments(segments) => {
                self.draw_segments(row, frame.region, segments);
            },
            BlockKind::Progress => {
                if let Some(playable) = playable {
                    self.draw_progress(row, frame.region, elapsed, playable.duration());
                }
            },
            BlockKind::Times => {
                if let Some(playable) = playable {
                    self.draw_times(row, frame.region, elapsed, playable.duration());
                }
            },
            BlockKind::Rule => {
                if let Some((left, right)) = frame.edges {
                    self.draw_rule(row, left, right);
                }
            },
        }
        let ghost scene = scene_of(
            old(self).size,
            frame,
            shown_item(playable),
            elapsed as nat,
            *band,
            live,
        );
        assert(self.sheet@ =~= old(self).sheet@ + block_marks(made@, row as int, scene));
        assert(self.hitboxes@ =~= old(self).hitboxes@ + block_hits(made@, row as int, scene));
    }

    /// Lay `stack` out top to bottom, shrinking it to the available height first.
    pub fn draw_blocks(
        &mut self,
        stack: Stack,
        frame: Frame,
        playable: Option<&Playable>,
        elapsed: u128,
        band: &Band,
        live: bool,
    )
        requires
            band.aligned(),
            drawable(old(self).size),
            frame.top + 8 * blocks::total_height(stack@) <= usize::MAX,
        ensures
            final(self).size == old(self).size,
            final(self).sheet@ == old(self).sheet@ + stack_marks(
                blocks::fitted(stack@, frame.height as nat),
                frame.top as int,
                scene_of(
                    old(self).size,
                    frame,
                    shown_item(playable),
                    elapsed as nat,
                    *band,
                    live,
                ),
            ),
            final(self).hitboxes@ == old(self).hitboxes@ + stack_hits(
                blocks::fitted(stack@, frame.height as nat),
                frame.top as int,
                scene_of(
                    old(self).size,
                    frame,
                    shown_item(playable),
                    elapsed as nat,
                    *band,
                    live,
                ),
            ),
    {
        let mut fitting = stack;
        blocks::fit_blocks(&mut fitting, frame.height);
        let ghost scene = scene_of(
            old(self).size,
            frame,
            shown_item(playable),
            elapsed as nat,
            *band,
            live,
        );
        let mut row: usize = frame.top;
        assert(fitting@.take(0) =~= Seq::empty());
        for i in 0..fitting.list.len()
            invariant
                band.aligned(),
                drawable(old(self).size),
                self.size == old(self).size,
                fitting@.len() == fitting.list@.len(),
                frame.top + 8 * blocks::total_height(fitting@) <= usize::MAX,
                row == frame.top + blocks::total_height(fitting@.take(i as int)),
                scene == scene_of(
                    old(self).size,
                    frame,
                    shown_item(playable),
                    elapsed as nat,
                    *band,
                    live,
                ),
                self.sheet@ =~= old(self).sheet@ + stack_marks(
                    fitting@.take(i as int),
                    frame.top as int,
                    scene,
                ),
                self.hitboxes@ =~= old(self).hitboxes@ + stack_hits(
                    fitting@.take(i as int),
                    frame.top as int,
                    scene,
                ),
        {
            proof {
                blocks::lemma_height_take(fitting@, i + 1);
                assert(fitting@.take(i + 1).drop_last() =~= fitting@.take(i as int));
                assert(fitting@.take(i + 1).last() == fitting.list@[i as int]@);
            }
            let made = &fitting.list[i];
            self.draw_block(made, row, frame, playable, elapsed, band, live);
            row = row + made.height();
        }
        assert(fitting@.take(fitting@.len() as int) =~= fitting@);
    }
}

/// The characters of a label that may be missing.
pub open spec fn badge_model(label: Option<&str>) -> Option<Seq<char>> {
    match label {
        Some(label) => Some(label@),
        None => None,
    }
}

/// The first of `segments` take no more columns than all of them.
proof fn lemma_width_take(segments: Seq<SegmentModel>, count: int)
    requires
        0 <= count <= segments.len(),
    ensures
        segments_width(segments.take(count)) <= segments_width(segments),
    decreases segments.len(),
{
    if count == segments.len() {
        assert(segments.take(count) =~= segments);
    } else {
        assert(segments.drop_last().take(count) =~= segments.take(count));
        lemma_width_take(segments.drop_last(), count);
    }
}

/// The columns that `segments` take side by side, unless that is more than `room`.
fn width_within(segments: &Segments, room: usize) -> (total: Option<usize>)
    ensures
        segments_width(segments@) > room ==> total is None,
        segments_width(segments@) <= room ==> total == Some(segments_width(segments@) as usize),
{
    let mut total: usize = 0;
    assert(segments@.take(0) =~= Seq::empty());
    for i in 0..segments.list.len()
        invariant
            segments@.len() == segments.list@.len(),
            total == segments_width(segments@.take(i as int)),
            total <= room,
    {
        proof {
            lemma_width_take(segments@, i + 1);
            assert(segments@.take(i + 1).drop_last() =~= segments@.take(i as int));
            assert(segments@.take(i + 1).last() == segments.list@[i as int]@);
        }
        let width = text::width(&segments.list[i].text);
        if width > room - total {
            return None;
        }
        total = total + width;
    }
    assert(segments@.take(segments@.len() as int) =~= segments@);
    Some(total)
}

/// The text of `segments` without the gaps between them.
fn flatten(segments: &Segments) -> (line: String)
    ensures
        line@ == flattened(segments@),
{
    let mut line = String::new();
    assert(segments@.take(0) =~= Seq::empty());
    for i in 0..segments.list.len()
        invariant
            segments@.len() == segments.list@.len(),
            line@ == flattened(segments@.take(i as int)),
    {
        assert(segments@.take(i + 1).drop_last() =~= segments@.take(i as int));
        assert(segments@.take(i + 1).last() == segments.list@[i as int]@);
        line.append(&segments.list[i].text);
    }
    assert(segments@.take(segments@.len() as int) =~= segments@);
    line
}

// ---------------------------------------------------------------------------
// What the hitboxes promise.
// ---------------------------------------------------------------------------

/// Whether a hitbox lies over a run of text that is on the screen.
pub open spec fn over_a_mark(hitbox: Hitbox, marks: Seq<Mark>) -> bool {
    exists|i: int|
        0 <= i < marks.len() && (#[trigger] marks[i]).x == hitbox.start && marks[i].y == hitbox.row
            && text::text_width(marks[i].text) == hitbox.width
}

/// The hit areas of a line of runs match what is on screen: each lies just over a run that
/// was printed.
pub proof fn law_hitboxes_match_what_is_printed(
    size: Vec2,
    y: int,
    region: Region,
    segments: Seq<SegmentModel>,
    hit: int,
)
    requires
        drawable(size),
        0 <= y,
        0 <= hit < segments_hits(size, y, region, segments).len(),
    ensures
        over_a_mark(
            segments_hits(size, y, region, segments)[hit],
            segments_marks(size, y, region, segments),
        ),
{
    let part = canvas::visible_part(region, size.x)->0;
    let total = segments_width(segments);
    lemma_run_hits(segments, part.centered(total as int), y, hit);
}

proof fn lemma_run_hits(segments: Seq<SegmentModel>, x: int, y: int, hit: int)
    requires
        0 <= x,
        x + segments_width(segments) <= usize::MAX,
        0 <= y <= usize::MAX,
        0 <= hit < run_hits(segments, x, y).len(),
    ensures
        over_a_mark(run_hits(segments, x, y)[hit], run_marks(segments, x, y)),
    decreases segments.len(),
{
    let earlier = segments.drop_last();
    let before = run_marks(earlier, x, y);
    let marks = run_marks(segments, x, y);
    if hit < run_hits(earlier, x, y).len() {
        lemma_run_hits(earlier, x, y, hit);
        let hitbox = run_hits(segments, x, y)[hit];
        let i = choose|i: int|
            0 <= i < before.len() && (#[trigger] before[i]).x == hitbox.start && before[i].y
                == hitbox.row && text::text_width(before[i].text) == hitbox.width;
        assert(marks[i] == before[i]);
    } else {
        assert(marks[marks.len() - 1].x == x + segments_width(earlier));
    }
}

/// No two hit areas of a line of runs overlap, so a click runs one control.
pub proof fn law_hitboxes_do_not_overlap(
    size: Vec2,
    y: int,
    region: Region,
    segments: Seq<SegmentModel>,
    one: int,
    other: int,
    position: Vec2,
)
    requires
        drawable(size),
        0 <= y,
        0 <= one < other < segments_hits(size, y, region, segments).len(),
    ensures
        !(segments_hits(size, y, region, segments)[one].covers(position) && segments_hits(
            size,
            y,
            region,
            segments,
        )[other].covers(position)),
{
    let part = canvas::visible_part(region, size.x)->0;
    let total = segments_width(segments);
    lemma_run_order(segments, part.centered(total as int), y, one, other);
}

proof fn lemma_run_end(segments: Seq<SegmentModel>, x: int, y: int, hit: int)
    requires
        0 <= x,
        x + segments_width(segments) <= usize::MAX,
        0 <= y <= usize::MAX,
        0 <= hit < run_hits(segments, x, y).len(),
    ensures
        run_hits(segments, x, y)[hit].start + run_hits(segments, x, y)[hit].width <= x
            + segments_width(segments),
    decreases segments.len(),
{
    let earlier = segments.drop_last();
    if hit < run_hits(earlier, x, y).len() {
        lemma_run_end(earlier, x, y, hit);
    }
}

proof fn lemma_run_order(segments: Seq<SegmentModel>, x: int, y: int, one: int, other: int)
    requires
        0 <= x,
        x + segments_width(segments) <= usize::MAX,
        0 <= y <= usize::MAX,
        0 <= one < other < run_hits(segments, x, y).len(),
    ensures
        run_hits(segments, x, y)[one].start + run_hits(segments, x, y)[one].width <= run_hits(
            segments,
            x,
            y,
        )[other].start,
    decreases segments.len(),
{
    let earlier = segments.drop_last();
    if other < run_hits(earlier, x, y).len() {
        lemma_run_order(earlier, x, y, one, other);
    } else {
        lemma_run_end(earlier, x, y, one);
    }
}

// ---------------------------------------------------------------------------
// What the parts of the card promise.
// ---------------------------------------------------------------------------

/// A line that fits into the part of its region that is on the screen is printed whole, in
/// the middle of that part: the space before it and behind it differs by one column at most.
pub proof fn law_a_line_is_centred(
    size: Vec2,
    y: int,
    region: Region,
    line: Seq<char>,
    ink: Ink,
    bold: bool,
)
    requires
        0 <= y < size.y,
        region.start + region.width <= size.x,
        text::text_width(line) <= region.width,
        region.width > 0,
    ensures
        ({
            let marks = line_marks(size, y, region, line, ink, bold);
            let before = marks[0].x - region.start;
            let behind = region.width - before - text::text_width(line);
            &&& marks.len() == 1
            &&& marks[0].text == line && marks[0].y == y && marks[0].ink == ink
            &&& 0 <= behind - before <= 1
            &&& 0 <= before
            &&& marks[0].effect == Effect::Bold <==> bold
        }),
{
}

/// Runs stand side by side: the first at the start of the line, each one where the one before
/// it ends, printed in its own colour.
pub proof fn law_runs_stand_side_by_side(segments: Seq<SegmentModel>, x: int, y: int, i: int)
    requires
        0 <= i < segments.len(),
    ensures
        ({
            let marks = run_marks(segments, x, y);
            &&& marks.len() == segments.len()
            &&& marks[i].text == segments[i].text
            &&& marks[i].ink == segments[i].ink
            &&& marks[i].y == y
            &&& marks[0].x == x
            &&& i > 0 ==> marks[i].x == marks[i - 1].x + text::text_width(marks[i - 1].text)
        }),
{
    lemma_runs(segments, x, y);
    let marks = run_marks(segments, x, y);
    assert(segments.take(0) =~= Seq::<SegmentModel>::empty());
    assert(marks[0].x == x + segments_width(segments.take(0)));
    if i > 0 {
        assert(segments.take(i).drop_last() =~= segments.take(i - 1));
        assert(segments.take(i).last() == segments[i - 1]);
        assert(marks[i - 1].x == x + segments_width(segments.take(i - 1)));
        assert(marks[i].x == x + segments_width(segments.take(i)));
    }
}

proof fn lemma_runs(segments: Seq<SegmentModel>, x: int, y: int)
    ensures
        run_marks(segments, x, y).len() == segments.len(),
        forall|i: int|
            0 <= i < segments.len() ==> {
                let run = #[trigger] run_marks(segments, x, y)[i];
                &&& run.text == segments[i].text
                &&& run.ink == segments[i].ink
                &&& run.y == y
                &&& run.x == x + segments_width(segments.take(i))
            },
    decreases segments.len(),
{
    if segments.len() > 0 {
        let earlier = segments.drop_last();
        lemma_runs(earlier, x, y);
        assert forall|i: int| 0 <= i < segments.len() implies {
            let run = #[trigger] run_marks(segments, x, y)[i];
            &&& run.text == segments[i].text
            &&& run.ink == segments[i].ink
            &&& run.y == y
            &&& run.x == x + segments_width(segments.take(i))
        } by {
            if i < earlier.len() {
                assert(run_marks(segments, x, y)[i] == run_marks(earlier, x, y)[i]);
                assert(earlier.take(i) =~= segments.take(i));
            } else {
                assert(segments.take(i) =~= earlier);
            }
        }
    }
}

/// A run can be clicked exactly where it is printed: every run that is wired has a hitbox
/// over just its cells and with its control, and there are no others.
pub proof fn law_wired_runs_can_be_clicked(segments: Seq<SegmentModel>, x: int, y: int, i: int)
    requires
        x >= 0,
        0 <= y <= usize::MAX,
        x + segments_width(segments) <= usize::MAX,
        0 <= i < segments.len(),
    ensures
        segments[i].control matches Some(control) ==> exists|k: int|
            0 <= k < run_hits(segments, x, y).len() && {
                let hitbox = #[trigger] run_hits(segments, x, y)[k];
                &&& hitbox.control == control
                &&& hitbox.row == y
                &&& hitbox.start == run_marks(segments, x, y)[i].x
                &&& hitbox.width == text::text_width(segments[i].text)
            },
        (forall|k: int| 0 <= k < segments.len() ==> (#[trigger] segments[k]).control is None)
            ==> run_hits(segments, x, y).len() == 0,
    decreases segments.len(),
{
    lemma_runs(segments, x, y);
    let earlier = segments.drop_last();
    lemma_width_take(segments, segments.len() - 1);
    assert(segments.take(segments.len() - 1) =~= earlier);
    lemma_runs(earlier, x, y);
    let before = run_hits(earlier, x, y);
    let hits = run_hits(segments, x, y);
    if i < earlier.len() {
        law_wired_runs_can_be_clicked(earlier, x, y, i);
        assert(run_marks(segments, x, y)[i] == run_marks(earlier, x, y)[i]);
        if let Some(control) = segments[i].control {
            let k = choose|k: int|
                0 <= k < before.len() && {
                    let hitbox = #[trigger] before[k];
                    &&& hitbox.control == control
                    &&& hitbox.row == y
                    &&& hitbox.start == run_marks(earlier, x, y)[i].x
                    &&& hitbox.width == text::text_width(segments[i].text)
                };
            assert(hits[k] == before[k]);
        }
    } else {
        if let Some(control) = segments[i].control {
            assert(hits[before.len() as int].control == control);
            assert(segments.take(i) =~= earlier);
        }
    }
    if forall|k: int| 0 <= k < segments.len() ==> (#[trigger] segments[k]).control is None {
        assert(segments.last() == segments[segments.len() - 1]);
        assert forall|k: int| 0 <= k < earlier.len() implies (
        #[trigger] earlier[k]).control is None by {
            assert(earlier[k] == segments[k]);
        }
        if earlier.len() > 0 {
            law_wired_runs_can_be_clicked(earlier, x, y, 0);
        }
    }
}

/// How many eighths of its cell a block element fills from the left: the thinnest comes last.
pub open spec fn block_width(glyph: char) -> int {
    if 0x2588 <= glyph as int <= 0x258f {
        0x2590 - glyph as int
    } else {
        0
    }
}

/// The bar is a track over the whole part of its region that is on the screen, and over it
/// what has been played: so many full cells and one that is filled in part are, taken
/// together, as many eighths as have been played. The playhead is in the cell that is
/// reached, and the last one at the end.
pub proof fn law_the_bar_is_as_long_as_what_was_played(
    size: Vec2,
    row: int,
    part: Region,
    elapsed: nat,
    duration: nat,
)
    requires
        0 <= row < size.y,
        part.start + part.width <= size.x,
        part.width > 1,
    ensures
        ({
            let marks = progress_marks(size, row, part, elapsed, duration);
            let eighths = meters::eighths_done(elapsed, duration, part.width as nat);
            let head = marks.last();
            let body = marks.subrange(1, marks.len() - 1);
            let whole: int = if eighths >= 8 {
                1
            } else {
                0
            };
            &&& marks.len() >= 2
            &&& marks[0].x == part.start && marks[0].text.len() == part.width
            &&& marks[0].text[0] == '\u{2508}' && marks[0].ink == Ink::Secondary
            &&& head.ink == Ink::Playing
            &&& forall|i: int| 0 <= i < marks.len() ==> (#[trigger] marks[i]).y == row
            &&& head.text == seq!['\u{25cf}']
            &&& part.start <= head.x < part.start + part.width
            &&& eighths < 8 * part.width ==> 8 * (head.x - part.start) <= eighths < 8 * (head.x
                - part.start) + 8
            &&& eighths >= 8 * part.width ==> head.x == part.start + part.width - 1
            &&& whole == 1 ==> body[0].x == part.start && 8 * body[0].text.len() <= eighths < 8
                * body[0].text.len() + 8 && body[0].ink == Ink::Accent && body[0].text[0]
                == '\u{2588}'
            &&& body.len() == whole || body.len() == whole + 1
            &&& body.len() == whole ==> eighths % 8 == 0
            &&& body.len() == whole + 1 ==> body[whole].text.len() == 1 && block_width(
                body[whole].text[0],
            ) > 0 && 8 * (body[whole].x - part.start) + block_width(body[whole].text[0]) == eighths
                && body[whole].ink == Ink::Accent
        }),
{
    let width = part.width as nat;
    let marks = progress_marks(size, row, part, elapsed, duration);
    let eighths = meters::eighths_done(elapsed, duration, width);
    let filled = eighths / 8;
    let remainder = eighths % 8;
    assert(eighths <= 8 * width);
    assert(canvas::visible_part(part, size.x) == Some(part));
    let track = seq![
        canvas::mark(part.start as int, row, text::repeated('\u{2508}', width), Ink::Secondary),
    ];
    let full = if filled > 0 {
        seq![
            canvas::mark(
                part.start as int,
                row,
                text::repeated('\u{2588}', filled),
                Ink::Accent,
            ),
        ]
    } else {
        Seq::empty()
    };
    let rest = if remainder > 0 && filled < width {
        seq![
            canvas::mark(part.start + filled, row, seq![partial_glyph(remainder)], Ink::Accent),
        ]
    } else {
        Seq::empty()
    };
    let head = seq![
        canvas::mark(
            part.start + vstd::math::min(filled as int, width - 1),
            row,
            seq!['\u{25cf}'],
            Ink::Playing,
        ),
    ];
    assert(marks == track + full + rest + head);
    assert(marks.subrange(1, marks.len() - 1) =~= full + rest);
    assert(marks[0] == track[0]);
    assert(marks.last() == head[0]);
    if remainder > 0 && filled < width {
        assert(seq![partial_glyph(remainder)][0] == partial_glyph(remainder));
        assert(block_width(partial_glyph(remainder)) == remainder);
    }
}

/// A click on the bar is a click on the item: the whole part of the region that is on the
/// screen, and nothing else, seeks.
pub proof fn law_the_whole_bar_seeks(size: Vec2, row: int, region: Region, position: Vec2)
    requires
        0 <= row < size.y,
        region.start < size.x,
        region.width > 0,
    ensures
        ({
            let hits = progress_hits(size, row, region);
            &&& hits.len() == 1
            &&& hits[0].control == Control::Seek
            &&& hits[0].covers(position) <==> position.y == row && region.start <= position.x
                < vstd::math::min(size.x as int, region.start + region.width)
        }),
{
}

/// Under the bar, the time that was played stands at its start and the length ends at its
/// end; what is between them is in the middle, and keeps two columns to both.
pub proof fn law_the_times_frame_the_bar(
    size: Vec2,
    row: int,
    part: Region,
    elapsed: nat,
    duration: nat,
)
    requires
        0 <= row < size.y,
        part.start + part.width <= size.x,
        elapsed <= u32::MAX,
        text::text_width(text::clock_face(elapsed)) + text::text_width(text::clock_face(duration))
            + 4 <= part.width,
    ensures
        ({
            let marks = times_marks(size, row, part, elapsed, duration);
            let left = text::clock_face(elapsed);
            let right = text::clock_face(duration);
            &&& marks.len() >= 2
            &&& marks[0].x == part.start && marks[0].text == left
            &&& marks[0].ink == Ink::Secondary && marks[1].ink == Ink::Secondary
            &&& forall|i: int| 0 <= i < marks.len() ==> (#[trigger] marks[i]).y == row
            &&& marks[1].x + text::text_width(right) == part.start + part.width && marks[1].text
                == right
            &&& marks.len() > 2 ==> {
                let shown = marks[2].text;
                let percent = text::digits(meters::percent_done(elapsed, duration));
                let before = marks[2].x - part.start;
                let behind = part.width - before - text::text_width(shown);
                &&& marks.len() == 3
                &&& marks[2].ink == Ink::Accent
                &&& percent.is_prefix_of(shown)
                &&& shown[percent.len() as int] == '%'
                &&& 0 <= behind - before <= 1
                &&& text::text_width(shown) + text::text_width(left) + text::text_width(right) + 4
                    <= part.width
                &&& shown.len() > percent.len() + 1 ==> shown.len() > percent.len() + 6
                    && shown.skip(percent.len() as int + 6) == meters::countdown(
                    elapsed,
                    duration,
                )
            }
        }),
{
    let marks = times_marks(size, row, part, elapsed, duration);
    let percent = text::digits(meters::percent_done(elapsed, duration));
    reveal_strlit("%");
    reveal_strlit("  \u{b7}  ");
    assert(canvas::visible_part(part, size.x) == Some(part));
    let detail = detail_label(elapsed, duration);
    let short = percent_label(elapsed, duration);
    assert(percent =~= detail.subrange(0, percent.len() as int));
    assert(percent =~= short.subrange(0, percent.len() as int));
    assert(detail.skip(percent.len() as int + 6) =~= meters::countdown(elapsed, duration));
    assert(meters::countdown(elapsed, duration).len() > 0);
}

/// The detail under the bar is the percentage and the countdown where they fit, and the
/// percentage alone where only that does.
pub proof fn law_as_much_detail_as_fits(
    size: Vec2,
    row: int,
    part: Region,
    elapsed: nat,
    duration: nat,
)
    requires
        0 <= row < size.y,
        part.start + part.width <= size.x,
        part.width > 0,
        elapsed <= u32::MAX,
    ensures
        ({
            let marks = times_marks(size, row, part, elapsed, duration);
            let used = text::text_width(text::clock_face(elapsed)) + text::text_width(
                text::clock_face(duration),
            ) + 4;
            let (long, short) = (detail_label(elapsed, duration), percent_label(elapsed, duration));
            &&& text::text_width(long) + used <= part.width ==> marks.len() == 3 && marks[2].text
                == long
            &&& text::text_width(long) + used > part.width && text::text_width(short) + used
                <= part.width ==> marks.len() == 3 && marks[2].text == short
            &&& text::text_width(long) + used > part.width && text::text_width(short) + used
                > part.width ==> marks.len() == 2
            &&& short.is_prefix_of(long)
        }),
{
    let (long, short) = (detail_label(elapsed, duration), percent_label(elapsed, duration));
    assert(canvas::visible_part(part, size.x) == Some(part));
    assert(short =~= long.subrange(0, short.len() as int));
}

/// A chip that fits is laid whole into the top border, in the middle of it, between two
/// blanks.
pub proof fn law_the_chip_is_in_the_top_border(
    rect: Rect,
    chip: Seq<char>,
    badge: Option<Seq<char>>,
    footer: Option<Seq<char>>,
)
    requires
        rect.left <= rect.right,
        chip.len() > 0,
        text::text_width(chip) + 8 < rect.right - rect.left + 1,
    ensures
        ({
            let marks = card_marks(rect, chip, badge, footer);
            let first = frame_marks(rect).len() as int;
            let (blank, behind, label) = (marks[first], marks[first + 1], marks[first + 2]);
            &&& marks.len() >= first + 3
            &&& label.text == chip && label.y == rect.top && label.ink == Ink::Playing
            &&& blank.text == seq![' '] && behind.text == seq![' ']
            &&& blank.y == rect.top && behind.y == rect.top
            &&& blank.x + 1 == label.x && behind.x == label.x + text::text_width(chip)
            &&& -1 <= (rect.right - behind.x) - (blank.x - rect.left) <= 1
        }),
{
    reveal_strlit(" ");
    assert(" "@ =~= seq![' ']);
    let marks = card_marks(rect, chip, badge, footer);
    let first = frame_marks(rect).len() as int;
    let laid = inlay_marks(chip_start(rect, chip), rect.top as int, chip, Ink::Playing);
    assert(chip_shown(rect, chip));
    assert(chip_text(rect, chip) == chip);
    assert(marks[first] == laid[0]);
    assert(marks[first + 1] == laid[1]);
    assert(marks[first + 2] == laid[2]);
}

/// What is laid in last is the footer, in the bottom border and four columns from its end;
/// the badge is laid in before that, in the top border and three columns from its end, and
/// only where it keeps clear of the chip.
pub proof fn law_badge_and_footer_are_at_the_right(
    rect: Rect,
    chip: Seq<char>,
    badge: Seq<char>,
    footer: Seq<char>,
)
    requires
        rect.left <= rect.right,
        rect.left + text::text_width(footer) + 6 < rect.right,
        rect.left + text::text_width(badge) + 6 < rect.right,
    ensures
        ({
            let marks = card_marks(rect, chip, Some(badge), Some(footer));
            let last = marks.last();
            &&& last.text == footer && last.y == rect.bottom && last.ink == Ink::Secondary
            &&& last.x + text::text_width(footer) + 3 == rect.right
        }),
        ({
            let marks = card_marks(rect, chip, Some(badge), None);
            let last = marks.last();
            chip_end(rect, chip) + text::text_width(badge) + 4 < rect.right ==> last.text == badge
                && last.y == rect.top && last.ink == Ink::Playing && last.x + text::text_width(
                badge,
            ) + 2 == rect.right
        }),
        chip_end(rect, chip) + text::text_width(badge) + 4 >= rect.right ==> card_marks(
            rect,
            chip,
            Some(badge),
            None,
        ) == card_marks(rect, chip, None, None),
{
    let marks = card_marks(rect, chip, Some(badge), Some(footer));
    let laid = inlay_marks(
        right_label_start(rect, text::text_width(footer) as int, 4),
        rect.bottom as int,
        footer,
        Ink::Secondary,
    );
    assert(marks.last() == laid[2]);
    let plain = card_marks(rect, chip, Some(badge), None);
    if chip_end(rect, chip) + text::text_width(badge) + 4 < rect.right {
        let laid = inlay_marks(
            right_label_start(rect, text::text_width(badge) as int, 3),
            rect.top as int,
            badge,
            Ink::Playing,
        );
        assert(plain.last() == laid[2]);
    } else {
        assert(plain =~= card_marks(rect, chip, None, None));
    }
}

proof fn lemma_sides(left: int, right: int, top: int, rows: nat)
    ensures
        side_marks(left, right, top, rows).len() == 2 * rows,
        forall|row: int|
            #![trigger side_marks(left, right, top, rows)[2 * row]]
            0 <= row < rows ==> {
                let (one, other) = (
                    side_marks(left, right, top, rows)[2 * row],
                    side_marks(left, right, top, rows)[2 * row + 1],
                );
                &&& one.x == left && other.x == right
                &&& one.y == top + row + 1 && other.y == top + row + 1
                &&& one.text == seq!['\u{2502}'] && other.text == seq!['\u{2502}']
            },
    decreases rows,
{
    reveal_strlit("\u{2502}");
    assert("\u{2502}"@ =~= seq!['\u{2502}']);
    if rows > 0 {
        let before = side_marks(left, right, top, (rows - 1) as nat);
        let marks = side_marks(left, right, top, rows);
        lemma_sides(left, right, top, (rows - 1) as nat);
        assert forall|row: int|
            #![trigger marks[2 * row]]
            0 <= row < rows implies {
            let (one, other) = (marks[2 * row], marks[2 * row + 1]);
            &&& one.x == left && other.x == right
            &&& one.y == top + row + 1 && other.y == top + row + 1
            &&& one.text == seq!['\u{2502}'] && other.text == seq!['\u{2502}']
        } by {
            if row < rows - 1 {
                assert(marks[2 * row] == before[2 * row]);
                assert(marks[2 * row + 1] == before[2 * row + 1]);
            }
        }
    }
}

/// The frame of a card goes round it: it starts with the upper left corner and ends with the
/// lower right one, a rule joins the corners above and below, and both sides are drawn in
/// every row between.
pub proof fn law_a_frame_goes_round(rect: Rect, row: int)
    requires
        rect.left + 1 < rect.right,
        rect.top < row < rect.bottom,
    ensures
        ({
            let marks = frame_marks(rect);
            let rows = rect.bottom - rect.top - 1;
            let (left, right) = (
                marks[3 + 2 * (row - rect.top - 1)],
                marks[3 + 2 * (row - rect.top - 1) + 1],
            );
            let (rule, corner) = (marks[1], marks[2]);
            let below = 3 + 2 * rows;
            &&& marks.len() == below + 3
            &&& marks[0].x == rect.left && marks[0].y == rect.top && marks[0].text
                == seq!['\u{256d}']
            &&& rule.x == rect.left + 1 && rule.y == rect.top && rule.x + rule.text.len()
                == rect.right
            &&& corner.x == rect.right && corner.y == rect.top && corner.text == seq!['\u{256e}']
            &&& left.x == rect.left && left.y == row && left.text == seq!['\u{2502}']
            &&& right.x == rect.right && right.y == row && right.text == seq!['\u{2502}']
            &&& marks[below].x == rect.left && marks[below].y == rect.bottom && marks[below].text
                == seq!['\u{2570}']
            &&& marks[below + 1].x + marks[below + 1].text.len() == rect.right
            &&& marks.last().x == rect.right && marks.last().y == rect.bottom && marks.last().text
                == seq!['\u{256f}']
        }),
{
    reveal_strlit("\u{256d}");
    reveal_strlit("\u{256e}");
    reveal_strlit("\u{2570}");
    reveal_strlit("\u{256f}");
    assert("\u{256d}"@ =~= seq!['\u{256d}']);
    assert("\u{256e}"@ =~= seq!['\u{256e}']);
    assert("\u{2570}"@ =~= seq!['\u{2570}']);
    assert("\u{256f}"@ =~= seq!['\u{256f}']);
    let rows = (rect.bottom - rect.top - 1) as nat;
    let (left, right) = (rect.left as int, rect.right as int);
    let sides = side_marks(left, right, rect.top as int, rows);
    lemma_sides(left, right, rect.top as int, rows);
    let marks = frame_marks(rect);
    let at = row - rect.top - 1;
    assert(marks[3 + 2 * at] == sides[2 * at]);
    assert(marks[3 + 2 * at + 1] == sides[2 * at + 1]);
}

/// A rule reaches from one edge of the card to the other and joins both.
pub proof fn law_a_rule_joins_the_edges(size: Vec2, row: int, left: int, right: int)
    requires
        row < size.y,
        left + 1 < right,
    ensures
        ({
            let marks = rule_marks(size, row, left, right);
            &&& marks.len() == 3
            &&& forall|i: int|
                0 <= i < 3 ==> (#[trigger] marks[i]).y == row && marks[i].ink == Ink::Secondary
            &&& marks[0].x == left && marks[0].text == seq!['\u{251c}']
            &&& marks[1].x == left + 1 && marks[1].x + marks[1].text.len() == right
            &&& marks[2].x == right && marks[2].text == seq!['\u{2524}']
        }),
{
    reveal_strlit("\u{251c}");
    reveal_strlit("\u{2524}");
    assert("\u{251c}"@ =~= seq!['\u{251c}']);
    assert("\u{2524}"@ =~= seq!['\u{2524}']);
}

/// The band is as wide as its part of the screen, but no wider than 61 columns, and in the
/// middle of it; it glows in the colour of what plays, and is quiet when nothing does.
pub proof fn law_the_band_is_centred(part: Region, top: usize, rows: usize, live: bool)
    requires
        part.start + part.width <= usize::MAX,
    ensures
        ({
            let area = band_area(part, top as int, rows);
            let before = area.origin - part.start;
            let behind = part.width - before - area.width;
            &&& area.width <= 61 && area.width <= part.width
            &&& area.width == 61 || area.width == part.width
            &&& 0 <= before && 0 <= behind - before <= 1
            &&& area.top == top && area.rows == rows
        }),
        card_palette(live).live == live,
        card_palette(live).hot == Ink::Playing,
        card_palette(live).warm == Ink::Accent,
        card_palette(live).quiet == Ink::Secondary,
{
}

/// Blocks stand on top of one another: what comes below a stack is drawn, and can be clicked,
/// as many rows further down as the stack has.
pub proof fn law_blocks_stack_up(
    upper: Seq<BlockModel>,
    lower: Seq<BlockModel>,
    top: int,
    scene: Scene,
)
    ensures
        stack_marks(upper + lower, top, scene) == stack_marks(upper, top, scene) + stack_marks(
            lower,
            top + blocks::total_height(upper),
            scene,
        ),
        stack_hits(upper + lower, top, scene) == stack_hits(upper, top, scene) + stack_hits(
            lower,
            top + blocks::total_height(upper),
            scene,
        ),
    decreases lower.len(),
{
    if lower.len() == 0 {
        assert(upper + lower =~= upper);
        assert(stack_marks(upper, top, scene) + Seq::<Mark>::empty() =~= stack_marks(
            upper,
            top,
            scene,
        ));
        assert(stack_hits(upper, top, scene) + Seq::<Hitbox>::empty() =~= stack_hits(
            upper,
            top,
            scene,
        ));
    } else {
        let fewer = lower.drop_last();
        law_blocks_stack_up(upper, fewer, top, scene);
        blocks::law_rows_add_up(upper, fewer, lower.last());
        assert((upper + lower).drop_last() =~= upper + fewer);
        assert((upper + lower).last() == lower.last());
        assert(stack_marks(upper + lower, top, scene) =~= stack_marks(upper, top, scene)
            + stack_marks(lower, top + blocks::total_height(upper), scene));
        assert(stack_hits(upper + lower, top, scene) =~= stack_hits(upper, top, scene)
            + stack_hits(lower, top + blocks::total_height(upper), scene));
    }
}

/// The bar of a stack shows how far the item is: its playhead is in the first cell at the
/// start of the item and in the last one at the end, and the times under it are the time that
/// was played and the length, in that order. Without an item there is neither.
pub proof fn law_the_bar_is_that_of_the_item(made: BlockModel, row: int, scene: Scene)
    requires
        0 <= row < scene.size.y,
        scene.region.start + scene.region.width <= scene.size.x,
        scene.region.width > 1,
        scene.elapsed <= u32::MAX,
    ensures
        made.kind is Progress || made.kind is Times ==> (scene.playable is None ==> block_marks(
            made,
            row,
            scene,
        ).len() == 0 && block_hits(made, row, scene).len() == 0),
        scene.playable matches Some(playable) ==> {
            let marks = block_marks(made, row, scene);
            let hits = block_hits(made, row, scene);
            &&& made.kind is Progress && scene.elapsed == 0 ==> marks.last().x
                == scene.region.start
            &&& made.kind is Progress && scene.elapsed >= playable.duration() > 0
                ==> marks.last().x == scene.region.start + scene.region.width - 1
            &&& made.kind is Progress ==> hits.len() == 1 && hits[0].control == Control::Seek
                && hits[0].row == row && hits[0].start == scene.region.start && hits[0].width
                == scene.region.width
            &&& made.kind is Times ==> marks[0].text == text::clock_face(scene.elapsed)
                && marks[1].text == text::clock_face(playable.duration() as nat)
                && marks[0].x == scene.region.start
        },
{
    if let Some(playable) = scene.playable {
        let duration = playable.duration() as nat;
        law_the_bar_is_as_long_as_what_was_played(
            scene.size,
            row,
            scene.region,
            scene.elapsed,
            duration,
        );
        let width = scene.region.width as nat;
        if scene.elapsed == 0 {
            assert(0 * (width * 8) == 0) by (nonlinear_arith);
            if duration > 0 {
                vstd::arithmetic::div_mod::lemma_div_of0(duration as int);
            }
            assert(meters::eighths_done(0, duration, width) == 0);
        }
        if scene.elapsed >= duration && duration > 0 {
            meters::law_the_end_is_the_whole(scene.elapsed, duration, width);
        }
        assert(canvas::visible_part(scene.region, scene.size.x) == Some(scene.region));
    }
}

proof fn lemma_flattened(one: Seq<SegmentModel>, other: Seq<SegmentModel>)
    ensures
        flattened(one + other) == flattened(one) + flattened(other),
        segments_width(one + other) == segments_width(one) + segments_width(other),
    decreases other.len(),
{
    if other.len() == 0 {
        assert(one + other =~= one);
        assert(flattened(one) + flattened(other) =~= flattened(one));
    } else {
        lemma_flattened(one, other.drop_last());
        assert((one + other).drop_last() =~= one + other.drop_last());
        assert((one + other).last() == other.last());
        assert(flattened(one + other) =~= flattened(one) + flattened(other));
    }
}

/// Runs that fit are centred as a whole. Those that do not are printed as one line of all
/// their texts, in the colour of the first, and cannot be clicked.
pub proof fn law_runs_are_centred_or_flattened(
    size: Vec2,
    y: int,
    region: Region,
    first: SegmentModel,
    rest: Seq<SegmentModel>,
)
    requires
        0 <= y < size.y,
        region.start + region.width <= size.x,
        region.width > 0,
    ensures
        ({
            let segments = seq![first] + rest;
            let marks = segments_marks(size, y, region, segments);
            let total = text::text_width(first.text) + segments_width(rest);
            let before = marks[0].x - region.start;
            let behind = region.width - before - total;
            &&& flattened(segments) == first.text + flattened(rest)
            &&& total <= region.width ==> marks.len() == segments.len() && 0 <= before && 0
                <= behind - before <= 1
            &&& total > region.width ==> marks == line_marks(
                size,
                y,
                region,
                first.text + flattened(rest),
                first.ink,
                false,
            ) && segments_hits(size, y, region, segments).len() == 0
        }),
{
    let segments = seq![first] + rest;
    let alone = seq![first];
    lemma_flattened(alone, rest);
    assert(alone.drop_last() =~= Seq::<SegmentModel>::empty());
    assert(alone.last() == first);
    assert(flattened(alone.drop_last()) =~= Seq::<char>::empty());
    assert(flattened(alone) =~= first.text);
    assert(segments_width(alone.drop_last()) == 0);
    assert(canvas::visible_part(region, size.x) == Some(region));
    let x = region.centered(segments_width(segments) as int);
    law_runs_stand_side_by_side(segments, x, y, 0);
    assert(segments[0] == first);
}

/// A chip that fits is shown whole and keeps three columns from each corner; one that would
/// take all but eight columns of the border is left out.
pub proof fn law_a_chip_keeps_clear_of_the_corners(rect: Rect, chip: Seq<char>)
    requires
        rect.left <= rect.right,
        rect.columns() >= 8,
    ensures
        text::text_width(chip) + 8 <= rect.columns() ==> chip_text(rect, chip) == chip,
        text::text_width(chip) + 8 == rect.columns() ==> !chip_shown(rect, chip),
        text::text_width(chip) + 8 < rect.columns() && chip.len() > 0 ==> chip_shown(rect, chip),
        chip_shown(rect, chip) ==> chip_start(rect, chip) >= rect.left + 3 && chip_end(rect, chip)
            + 3 <= rect.right,
        !chip_shown(rect, chip) ==> chip_end(rect, chip) == rect.left,
{
}

} // verus!
