//! The band drawn above the track on the now playing card.
//!
//! The levels themselves come from the audio tap, and how they move is worked out where
//! they are measured; this owns how a band of given heights is drawn.

use vstd::prelude::*;

use crate::canvas::{Ink, Sheet};
#[allow(unused_imports)]
use crate::canvas::{Effect, Mark};
use crate::canvas;
use crate::text;

verus! {

/// The glyph that fills the lowest `eighths` eighths of a cell.
pub open spec fn block_glyph(eighths: nat) -> char {
    if eighths <= 1 {
        '\u{2581}'
    } else if eighths == 2 {
        '\u{2582}'
    } else if eighths == 3 {
        '\u{2583}'
    } else if eighths == 4 {
        '\u{2584}'
    } else if eighths == 5 {
        '\u{2585}'
    } else if eighths == 6 {
        '\u{2586}'
    } else if eighths == 7 {
        '\u{2587}'
    } else {
        '\u{2588}'
    }
}

/// Eighth-block glyphs, used both for the spectrum and for the small equalizer: the glyph
/// that fills `eighths` eighths of a cell, from the bottom up.
pub fn block(eighths: usize) -> (glyph: char)
    requires
        1 <= eighths <= 8,
    ensures
        glyph == block_glyph(eighths as nat),
{
    match eighths {
        1 => '\u{2581}',
        2 => '\u{2582}',
        3 => '\u{2583}',
        4 => '\u{2584}',
        5 => '\u{2585}',
        6 => '\u{2586}',
        7 => '\u{2587}',
        _ => '\u{2588}',
    }
}

/// The partial block that hangs from the top of a cell, for the reflection in the mirror
/// style. Unicode has no eighths going downward, so this is as fine as a hanging bar gets.
pub open spec fn hanging_glyph(eighths: nat) -> char {
    if eighths <= 2 {
        '\u{2594}'
    } else if eighths <= 6 {
        '\u{2580}'
    } else {
        '\u{2588}'
    }
}

/// How the band is drawn. The levels are the same in every style; only the shape they are
/// given changes.
#[derive(Clone, Copy, PartialEq, Eq, Structural, Debug, Default)]
pub enum Style {
    /// One bar per band, growing up from the baseline.
    #[default]
    Bars,
    /// Bars with a dimmer reflection hanging below them.
    Mirror,
    /// A single line tracing the top of the band, drawn as a curve.
    Wave,
    /// One horizontal meter for the whole mix, with a peak marker, like the needle on an
    /// amplifier.
    Vu,
}

/// The style of a name in lower case, or bars for anything unrecognised.
pub open spec fn style_named(name: Seq<char>) -> Style {
    if name == "mirror"@ {
        Style::Mirror
    } else if name == "wave"@ {
        Style::Wave
    } else if name == "vu"@ {
        Style::Vu
    } else {
        Style::Bars
    }
}

impl Style {
    /// The style named in the config, or bars for anything unrecognised: a typo should
    /// cost the shape asked for, not the visualizer.
    pub fn parse(name: Option<&str>) -> (style: Self)
        ensures
            name is None ==> style == Style::Bars,
            name matches Some(name) ==> style == style_named(text::lowercase(text::trimmed(name@))),
    {
        match name {
            Some(name) => Style::named(&text::to_lowercase(&text::trim(name))),
            None => Style::Bars,
        }
    }

    /// The style of a name that is in lower case already.
    pub fn named(name: &str) -> (style: Self)
        ensures
            style == style_named(name@),
    {
        if text::same(name, "mirror") {
            Style::Mirror
        } else if text::same(name, "wave") {
            Style::Wave
        } else if text::same(name, "vu") {
            Style::Vu
        } else {
            Style::Bars
        }
    }
}

/// The colours a band is drawn in: `hot` for the top of a bar and for peaks, `warm` for
/// the body, `quiet` for the floor and for a band nothing is feeding.
#[derive(Clone, Copy)]
pub struct Palette {
    pub hot: Ink,
    pub warm: Ink,
    pub quiet: Ink,
    /// Whether something is actually playing. A band nobody is feeding is drawn in one
    /// quiet colour, so a paused view does not look like a live one.
    pub live: bool,
}

/// Where a band goes: `rows` rows starting at `top`, `width` columns from `origin`.
#[derive(Clone, Copy)]
pub struct Area {
    pub origin: usize,
    pub top: usize,
    pub width: usize,
    pub rows: usize,
}

impl Area {
    /// Whether the cells of the area, and the eighths of its height, can be counted.
    pub open spec fn countable(self) -> bool {
        &&& self.origin + 5 * self.width <= usize::MAX
        &&& self.top + 8 * self.rows <= usize::MAX
    }

    /// The lowest row.
    pub fn baseline(&self) -> (row: usize)
        requires
            self.rows > 0,
            self.top + self.rows <= usize::MAX,
        ensures
            row == self.top + self.rows - 1,
    {
        self.top + self.rows - 1
    }
}

/// What a band shows in one frame. Heights are in eighths of a cell, rounded.
pub struct Band {
    /// How high each bar reaches.
    pub levels: Vec<usize>,
    /// Where the marker over each bar is.
    pub peaks: Vec<usize>,
    /// How far the reflection of each bar hangs down.
    pub reflections: Vec<usize>,
    /// The columns that the average of the bars fills on one meter for all of them.
    pub average: usize,
    /// The column that the highest marker reaches on that meter.
    pub loudest: usize,
}

impl Band {
    /// Whether every bar has its marker and its reflection.
    pub open spec fn aligned(self) -> bool {
        self.peaks@.len() == self.levels@.len() && self.reflections@.len() == self.levels@.len()
    }
}

// ---------------------------------------------------------------------------
// Bars.
// ---------------------------------------------------------------------------

/// How many eighths of the cell `tier` cells above the baseline a bar fills.
pub open spec fn eighths_at(level: int, tier: int) -> int {
    if level <= tier * 8 {
        0
    } else if level >= tier * 8 + 8 {
        8
    } else {
        level - tier * 8
    }
}

/// Classic meter colouring: the higher the cell, the hotter it reads.
pub open spec fn tier_ink(palette: Palette, tier: int, rows: int) -> Ink {
    if !palette.live {
        palette.quiet
    } else if tier + 1 == rows {
        palette.hot
    } else {
        palette.warm
    }
}

/// The colour of a marker.
pub open spec fn marker_ink(palette: Palette) -> Ink {
    if palette.live {
        palette.hot
    } else {
        palette.quiet
    }
}

/// One glyph at a cell.
pub open spec fn dot(x: int, y: int, glyph: char, ink: Ink) -> Mark {
    canvas::mark(x, y, seq![glyph], ink)
}

/// The cells of a bar that lie below tier `tiers`, from the baseline up.
pub open spec fn tier_marks(
    x: int,
    baseline: int,
    level: int,
    tiers: nat,
    rows: int,
    bottom: int,
    palette: Palette,
) -> Seq<Mark>
    decreases tiers,
{
    if tiers == 0 {
        Seq::empty()
    } else {
        let tier = tiers - 1;
        let below = tier_marks(x, baseline, level, tier as nat, rows, bottom, palette);
        if baseline - tier < bottom && eighths_at(level, tier) > 0 {
            below.push(
                dot(
                    x,
                    baseline - tier,
                    block_glyph(eighths_at(level, tier) as nat),
                    tier_ink(palette, tier, rows),
                ),
            )
        } else {
            below
        }
    }
}

/// One column of bars: a dim floor where the bar has decayed away, the bar, and the marker
/// where it floats above the bar.
pub open spec fn bar_marks(
    x: int,
    baseline: int,
    level: int,
    peak: int,
    rows: int,
    bottom: int,
    palette: Palette,
) -> Seq<Mark> {
    let floor = if level == 0 && baseline < bottom {
        seq![dot(x, baseline, '\u{2581}', palette.quiet)]
    } else {
        Seq::empty()
    };
    let bar = tier_marks(x, baseline, level, rows as nat, rows, bottom, palette);
    let marker = if peak > 0 && peak / 8 < rows && (level == 0 || peak / 8 > (level - 1) / 8)
        && baseline - peak / 8 < bottom {
        seq![dot(x, baseline - peak / 8, '\u{2594}', marker_ink(palette))]
    } else {
        Seq::empty()
    };
    floor + bar + marker
}

/// The first `columns` columns of bars.
pub open spec fn bars_marks(
    levels: Seq<usize>,
    peaks: Seq<usize>,
    columns: nat,
    origin: int,
    baseline: int,
    rows: int,
    bottom: int,
    palette: Palette,
) -> Seq<Mark>
    decreases columns,
{
    if columns == 0 {
        Seq::empty()
    } else {
        let column = columns - 1;
        bars_marks(levels, peaks, column as nat, origin, baseline, rows, bottom, palette)
            + bar_marks(
            origin + column,
            baseline,
            levels[column] as int,
            peaks[column] as int,
            rows,
            bottom,
            palette,
        )
    }
}

/// What the bars of `area` put on a screen of `bottom` rows when the lowest `sunk` rows of
/// the area belong to something else.
pub open spec fn bars_drawn(
    band: Band,
    area: Area,
    palette: Palette,
    sunk: int,
    bottom: int,
) -> Seq<Mark> {
    if sunk >= area.rows {
        Seq::empty()
    } else {
        bars_marks(
            band.levels@,
            band.peaks@,
            area.width as nat,
            area.origin as int,
            area.top + area.rows - sunk - 1,
            area.rows - sunk,
            bottom,
            palette,
        )
    }
}

/// Bars growing up from the baseline, with a peak marker floating above each.
///
/// `sunk` is how many of the bottom rows belong to something else, which is how the mirror
/// style keeps its reflection out of the way.
pub fn bars(sheet: &mut Sheet, bottom: usize, band: &Band, area: Area, palette: Palette, sunk: usize)
    requires
        band.aligned(),
        area.countable(),
        area.width <= band.levels@.len(),
    ensures
        final(sheet)@ == old(sheet)@ + bars_drawn(
            *band,
            area,
            palette,
            sunk as int,
            bottom as int,
        ),
{
    if sunk >= area.rows {
        assert(sheet@ =~= old(sheet)@ + Seq::<Mark>::empty());
        return;
    }
    let rows: usize = area.rows - sunk;
    let baseline: usize = area.top + rows - 1;
    for column in 0..area.width
        invariant
            band.aligned(),
            area.countable(),
            area.width <= band.levels@.len(),
            0 < rows <= area.rows,
            baseline == area.top + rows - 1,
            sheet@ =~= old(sheet)@ + bars_marks(
                band.levels@,
                band.peaks@,
                column as nat,
                area.origin as int,
                baseline as int,
                rows as int,
                bottom as int,
                palette,
            ),
    {
        bar(
            sheet,
            bottom,
            area.origin + column,
            baseline,
            band.levels[column],
            band.peaks[column],
            rows,
            palette,
        );
    }
}

/// One column of bars.
fn bar(
    sheet: &mut Sheet,
    bottom: usize,
    x: usize,
    baseline: usize,
    level: usize,
    peak: usize,
    rows: usize,
    palette: Palette,
)
    requires
        rows <= baseline + 1,
        8 * rows <= usize::MAX,
    ensures
        final(sheet)@ == old(sheet)@ + bar_marks(
            x as int,
            baseline as int,
            level as int,
            peak as int,
            rows as int,
            bottom as int,
            palette,
        ),
{
    // A dim floor frames the band, and keeps it readable as a band when a column has
    // decayed away to nothing.
    if level == 0 && baseline < bottom {
        put(sheet, x, baseline, '\u{2581}', palette.quiet);
    }
    let ghost floored = sheet@;
    for tier in 0..rows
        invariant
            rows <= baseline + 1,
            8 * rows <= usize::MAX,
            sheet@ =~= floored + tier_marks(
                x as int,
                baseline as int,
                level as int,
                tier as nat,
                rows as int,
                bottom as int,
                palette,
            ),
    {
        let y: usize = baseline - tier;
        let cell: usize = if level <= tier * 8 {
            0
        } else if level - tier * 8 >= 8 {
            8
        } else {
            level - tier * 8
        };
        if y < bottom && cell > 0 {
            let ink = if !palette.live {
                palette.quiet
            } else if tier + 1 == rows {
                palette.hot
            } else {
                palette.warm
            };
            put(sheet, x, y, block(cell), ink);
        }
    }
    // The peak marker floats above the bar and falls back under gravity, so a column that
    // just spiked stays legible after the bar drops.
    let peak_tier: usize = peak / 8;
    if peak > 0 && peak_tier < rows && (level == 0 || peak_tier > (level - 1) / 8) {
        let y: usize = baseline - peak_tier;
        if y < bottom {
            let ink = if palette.live {
                palette.hot
            } else {
                palette.quiet
            };
            put(sheet, x, y, '\u{2594}', ink);
        }
    }
    assert(sheet@ =~= old(sheet)@ + bar_marks(
        x as int,
        baseline as int,
        level as int,
        peak as int,
        rows as int,
        bottom as int,
        palette,
    ));
}

/// Print one glyph.
fn put(sheet: &mut Sheet, x: usize, y: usize, glyph: char, ink: Ink)
    ensures
        final(sheet)@ == old(sheet)@.push(dot(x as int, y as int, glyph, ink)),
{
    let mut run = String::new();
    run.push(glyph);
    assert(run@ =~= seq![glyph]);
    sheet.print(x, y, &run, ink);
}

// ---------------------------------------------------------------------------
// The mirror.
// ---------------------------------------------------------------------------

/// The cells of a reflection that hang less than `depths` cells deep, from the surface down.
pub open spec fn hanging_marks(
    x: int,
    surface: int,
    level: int,
    depths: nat,
    bottom: int,
    ink: Ink,
) -> Seq<Mark>
    decreases depths,
{
    if depths == 0 {
        Seq::empty()
    } else {
        let depth = depths - 1;
        let above = hanging_marks(x, surface, level, depth as nat, bottom, ink);
        if surface + depth < bottom && eighths_at(level, depth) > 0 {
            above.push(
                dot(x, surface + depth, hanging_glyph(eighths_at(level, depth) as nat), ink),
            )
        } else {
            above
        }
    }
}

/// The first `columns` columns of a reflection that has `reflected` rows.
pub open spec fn reflection_marks(
    reflections: Seq<usize>,
    columns: nat,
    origin: int,
    surface: int,
    reflected: nat,
    bottom: int,
    ink: Ink,
) -> Seq<Mark>
    decreases columns,
{
    if columns == 0 {
        Seq::empty()
    } else {
        let column = columns - 1;
        reflection_marks(
            reflections,
            column as nat,
            origin,
            surface,
            reflected,
            bottom,
            ink,
        ) + hanging_marks(
            origin + column,
            surface,
            vstd::math::min(reflections[column] as int, reflected as int * 8),
            reflected,
            bottom,
            ink,
        )
    }
}

/// The bars in the upper rows, and half of the rows for what hangs below them.
pub open spec fn mirror_drawn(band: Band, area: Area, palette: Palette, bottom: int) -> Seq<Mark> {
    let reflected = area.rows as int / 2;
    bars_drawn(band, area, palette, reflected, bottom) + reflection_marks(
        band.reflections@,
        area.width as nat,
        area.origin as int,
        area.top + area.rows - reflected,
        reflected as nat,
        bottom,
        palette.quiet,
    )
}

/// Print the glyph that hangs `cell` eighths down from the top of a cell.
fn put_hanging(sheet: &mut Sheet, x: usize, y: usize, cell: usize, ink: Ink)
    ensures
        final(sheet)@ == old(sheet)@.push(
            dot(x as int, y as int, hanging_glyph(cell as nat), ink),
        ),
{
    let glyph = if cell <= 2 {
        '\u{2594}'
    } else if cell <= 6 {
        '\u{2580}'
    } else {
        '\u{2588}'
    };
    put(sheet, x, y, glyph, ink);
}

/// Bars in the upper rows with a dimmer copy hanging below them, the way a band looks
/// reflected in the glass of a rack unit.
pub fn mirror(sheet: &mut Sheet, bottom: usize, band: &Band, area: Area, palette: Palette)
    requires
        band.aligned(),
        area.countable(),
        area.width <= band.levels@.len(),
    ensures
        final(sheet)@ == old(sheet)@ + mirror_drawn(*band, area, palette, bottom as int),
{
    let reflected: usize = area.rows / 2;
    bars(sheet, bottom, band, area, palette, reflected);
    let ghost upper = sheet@;
    // The reflection is shortened as well as dimmed, so it reads as a reflection rather
    // than as a second band competing with the first.
    let surface: usize = area.top + area.rows - reflected;
    let ceiling: usize = reflected * 8;
    for column in 0..area.width
        invariant
            band.aligned(),
            area.countable(),
            area.width <= band.levels@.len(),
            reflected == area.rows as int / 2,
            surface == area.top + area.rows - reflected,
            ceiling == reflected * 8,
            sheet@ =~= upper + reflection_marks(
                band.reflections@,
                column as nat,
                area.origin as int,
                surface as int,
                reflected as nat,
                bottom as int,
                palette.quiet,
            ),
    {
        let level: usize = if band.reflections[column] < ceiling {
            band.reflections[column]
        } else {
            ceiling
        };
        let x: usize = area.origin + column;
        let ghost before = sheet@;
        for depth in 0..reflected
            invariant
                area.countable(),
                reflected == area.rows as int / 2,
                surface == area.top + area.rows - reflected,
                sheet@ =~= before + hanging_marks(
                    x as int,
                    surface as int,
                    level as int,
                    depth as nat,
                    bottom as int,
                    palette.quiet,
                ),
        {
            let y: usize = surface + depth;
            let cell: usize = if level <= depth * 8 {
                0
            } else if level - depth * 8 >= 8 {
                8
            } else {
                level - depth * 8
            };
            if y < bottom && cell > 0 {
                put_hanging(sheet, x, y, cell, palette.quiet);
            }
        }
    }
    assert(sheet@ =~= old(sheet)@ + mirror_drawn(*band, area, palette, bottom as int));
}

// ---------------------------------------------------------------------------
// The wave.
// ---------------------------------------------------------------------------

/// The colour of the body of a band.
pub open spec fn body_ink(palette: Palette) -> Ink {
    if palette.live {
        palette.warm
    } else {
        palette.quiet
    }
}

/// The first `columns` columns of a line that traces the top of the band.
pub open spec fn wave_marks(
    levels: Seq<usize>,
    columns: nat,
    area: Area,
    palette: Palette,
    bottom: int,
) -> Seq<Mark>
    decreases columns,
{
    if columns == 0 {
        Seq::empty()
    } else {
        let column = columns - 1;
        let traced = wave_marks(levels, column as nat, area, palette, bottom);
        let eighths = vstd::math::min(levels[column] as int, area.rows * 8 - 1);
        let y = area.top + area.rows - 1 - eighths / 8;
        if y < bottom {
            traced.push(
                dot(
                    area.origin + column,
                    y,
                    block_glyph((eighths % 8 + 1) as nat),
                    body_ink(palette),
                ),
            )
        } else {
            traced
        }
    }
}

/// A single line tracing the top of the band.
pub fn wave(sheet: &mut Sheet, bottom: usize, band: &Band, area: Area, palette: Palette)
    requires
        band.aligned(),
        area.countable(),
        area.rows > 0,
        area.width <= band.levels@.len(),
    ensures
        final(sheet)@ == old(sheet)@ + wave_marks(
            band.levels@,
            area.width as nat,
            area,
            palette,
            bottom as int,
        ),
{
    let top_eighth: usize = area.rows * 8 - 1;
    let ink = if palette.live {
        palette.warm
    } else {
        palette.quiet
    };
    for column in 0..area.width
        invariant
            area.countable(),
            area.rows > 0,
            area.width <= band.levels@.len(),
            top_eighth == area.rows * 8 - 1,
            ink == body_ink(palette),
            sheet@ =~= old(sheet)@ + wave_marks(
                band.levels@,
                column as nat,
                area,
                palette,
                bottom as int,
            ),
    {
        let level: usize = band.levels[column];
        let eighths: usize = if level < top_eighth {
            level
        } else {
            top_eighth
        };
        let y: usize = area.baseline() - eighths / 8;
        if y < bottom {
            put(sheet, area.origin + column, y, block(eighths % 8 + 1), ink);
        }
    }
}

// ---------------------------------------------------------------------------
// The meter.
// ---------------------------------------------------------------------------

/// The first `columns` filled cells of the meter. The last fifth of the meter is the hot
/// end, the way a meter's red is.
pub open spec fn meter_marks(columns: nat, row: int, area: Area, palette: Palette) -> Seq<Mark>
    decreases columns,
{
    if columns == 0 {
        Seq::empty()
    } else {
        let column = columns - 1;
        let ink = if !palette.live {
            palette.quiet
        } else if column * 5 >= area.width * 4 {
            palette.hot
        } else {
            palette.warm
        };
        meter_marks(column as nat, row, area, palette).push(
            dot(area.origin + column, row, '\u{2588}', ink),
        )
    }
}

/// One meter for the whole mix: its track, as much of it as the average fills, and a marker
/// where the loudest band reaches further.
pub open spec fn vu_drawn(band: Band, area: Area, palette: Palette, bottom: int) -> Seq<Mark> {
    let row = area.top + area.rows as int / 2;
    let filled = vstd::math::min(band.average as int, area.width as int);
    let marker = vstd::math::min(band.loudest as int, area.width - 1);
    if row >= bottom {
        Seq::empty()
    } else {
        seq![
            canvas::mark(
                area.origin as int,
                row,
                text::repeated('\u{2508}', area.width as nat),
                palette.quiet,
            ),
        ] + meter_marks(filled as nat, row, area, palette) + if marker > filled {
            seq![dot(area.origin + marker, row, '\u{2503}', marker_ink(palette))]
        } else {
            Seq::empty()
        }
    }
}

/// One horizontal meter for the whole mix: the average level fills it, and the loudest band
/// of the moment marks the peak.
pub fn vu(sheet: &mut Sheet, bottom: usize, band: &Band, area: Area, palette: Palette)
    requires
        area.countable(),
        area.width > 0,
    ensures
        final(sheet)@ == old(sheet)@ + vu_drawn(*band, area, palette, bottom as int),
{
    let row: usize = area.top + area.rows / 2;
    if row >= bottom {
        assert(sheet@ =~= old(sheet)@ + Seq::<Mark>::empty());
        return;
    }
    let filled: usize = if band.average < area.width {
        band.average
    } else {
        area.width
    };
    sheet.print(area.origin, row, &text::repeat('\u{2508}', area.width), palette.quiet);
    let ghost track = sheet@;
    for column in 0..filled
        invariant
            area.countable(),
            filled <= area.width,
            sheet@ =~= track + meter_marks(column as nat, row as int, area, palette),
    {
        let ink = if !palette.live {
            palette.quiet
        } else if column * 5 >= area.width * 4 {
            palette.hot
        } else {
            palette.warm
        };
        put(sheet, area.origin + column, row, '\u{2588}', ink);
    }
    let marker: usize = if band.loudest < area.width - 1 {
        band.loudest
    } else {
        area.width - 1
    };
    if marker > filled {
        let ink = if palette.live {
            palette.hot
        } else {
            palette.quiet
        };
        put(sheet, area.origin + marker, row, '\u{2503}', ink);
    }
    assert(sheet@ =~= old(sheet)@ + vu_drawn(*band, area, palette, bottom as int));
}

// ---------------------------------------------------------------------------
// Any style.
// ---------------------------------------------------------------------------

/// What a band puts on a screen of `bottom` rows. An area without cells, or one that is
/// wider than the band, stays empty.
pub open spec fn drawn(
    band: Band,
    area: Area,
    palette: Palette,
    style: Style,
    bottom: int,
) -> Seq<Mark> {
    if area.rows == 0 || area.width == 0 || band.levels@.len() < area.width {
        Seq::empty()
    } else {
        match style {
            Style::Bars => bars_drawn(band, area, palette, 0, bottom),
            Style::Mirror => mirror_drawn(band, area, palette, bottom),
            Style::Wave => wave_marks(band.levels@, area.width as nat, area, palette, bottom),
            Style::Vu => vu_drawn(band, area, palette, bottom),
        }
    }
}

/// Draw the band in whichever shape the user asked for.
pub fn draw(
    sheet: &mut Sheet,
    bottom: usize,
    band: &Band,
    area: Area,
    palette: Palette,
    style: Style,
)
    requires
        band.aligned(),
        area.countable(),
    ensures
        final(sheet)@ == old(sheet)@ + drawn(*band, area, palette, style, bottom as int),
{
    if area.rows == 0 || area.width == 0 || band.levels.len() < area.width {
        assert(sheet@ =~= old(sheet)@ + Seq::<Mark>::empty());
        return;
    }
    match style {
        Style::Bars => bars(sheet, bottom, band, area, palette, 0),
        Style::Mirror => mirror(sheet, bottom, band, area, palette),
        Style::Wave => wave(sheet, bottom, band, area, palette),
        Style::Vu => vu(sheet, bottom, band, area, palette),
    }
}

// ---------------------------------------------------------------------------
// What every style keeps to.
// ---------------------------------------------------------------------------

/// Whether every run starts at a cell of the area that a screen of `bottom` rows shows.
pub open spec fn inside(marks: Seq<Mark>, area: Area, bottom: int) -> bool {
    forall|i: int|
        0 <= i < marks.len() ==> {
            let run = #[trigger] marks[i];
            &&& area.origin <= run.x < area.origin + area.width
            &&& area.top <= run.y < area.top + area.rows
            &&& run.y < bottom
        }
}

proof fn lemma_tiers_inside(
    area: Area,
    x: int,
    baseline: int,
    level: int,
    tiers: nat,
    rows: int,
    bottom: int,
    palette: Palette,
)
    requires
        area.origin <= x < area.origin + area.width,
        tiers <= rows,
        baseline == area.top + rows - 1,
        rows <= area.rows,
    ensures
        inside(tier_marks(x, baseline, level, tiers, rows, bottom, palette), area, bottom),
    decreases tiers,
{
    if tiers > 0 {
        lemma_tiers_inside(
            area,
            x,
            baseline,
            level,
            (tiers - 1) as nat,
            rows,
            bottom,
            palette,
        );
    }
}

proof fn lemma_bars_inside(
    area: Area,
    levels: Seq<usize>,
    peaks: Seq<usize>,
    columns: nat,
    baseline: int,
    rows: int,
    bottom: int,
    palette: Palette,
)
    requires
        columns <= area.width,
        0 < rows <= area.rows,
        baseline == area.top + rows - 1,
    ensures
        inside(
            bars_marks(
                levels,
                peaks,
                columns,
                area.origin as int,
                baseline,
                rows,
                bottom,
                palette,
            ),
            area,
            bottom,
        ),
    decreases columns,
{
    if columns > 0 {
        let column = columns - 1;
        lemma_bars_inside(
            area,
            levels,
            peaks,
            column as nat,
            baseline,
            rows,
            bottom,
            palette,
        );
        lemma_tiers_inside(
            area,
            area.origin + column,
            baseline,
            levels[column] as int,
            rows as nat,
            rows,
            bottom,
            palette,
        );
    }
}

proof fn lemma_hanging_inside(
    area: Area,
    x: int,
    surface: int,
    level: int,
    depths: nat,
    bottom: int,
    ink: Ink,
)
    requires
        area.origin <= x < area.origin + area.width,
        area.top <= surface,
        surface + depths <= area.top + area.rows,
    ensures
        inside(hanging_marks(x, surface, level, depths, bottom, ink), area, bottom),
    decreases depths,
{
    if depths > 0 {
        lemma_hanging_inside(area, x, surface, level, (depths - 1) as nat, bottom, ink);
    }
}

proof fn lemma_reflection_inside(
    area: Area,
    reflections: Seq<usize>,
    columns: nat,
    surface: int,
    reflected: nat,
    bottom: int,
    ink: Ink,
)
    requires
        columns <= area.width,
        area.top <= surface,
        surface + reflected <= area.top + area.rows,
    ensures
        inside(
            reflection_marks(
                reflections,
                columns,
                area.origin as int,
                surface,
                reflected,
                bottom,
                ink,
            ),
            area,
            bottom,
        ),
    decreases columns,
{
    if columns > 0 {
        let column = columns - 1;
        lemma_reflection_inside(
            area,
            reflections,
            column as nat,
            surface,
            reflected,
            bottom,
            ink,
        );
        lemma_hanging_inside(
            area,
            area.origin + column,
            surface,
            vstd::math::min(reflections[column] as int, reflected as int * 8),
            reflected,
            bottom,
            ink,
        );
    }
}

proof fn lemma_wave_inside(
    area: Area,
    levels: Seq<usize>,
    columns: nat,
    palette: Palette,
    bottom: int,
)
    requires
        columns <= area.width,
        area.rows > 0,
    ensures
        inside(wave_marks(levels, columns, area, palette, bottom), area, bottom),
    decreases columns,
{
    if columns > 0 {
        lemma_wave_inside(area, levels, (columns - 1) as nat, palette, bottom);
    }
}

proof fn lemma_meter_inside(area: Area, columns: nat, row: int, palette: Palette, bottom: int)
    requires
        columns <= area.width,
        area.top <= row < area.top + area.rows,
        row < bottom,
    ensures
        inside(meter_marks(columns, row, area, palette), area, bottom),
    decreases columns,
{
    if columns > 0 {
        lemma_meter_inside(area, (columns - 1) as nat, row, palette, bottom);
    }
}

/// No style ever prints outside the area it was given, or below the screen.
pub proof fn law_band_stays_in_its_area(
    band: Band,
    area: Area,
    palette: Palette,
    style: Style,
    bottom: int,
)
    ensures
        inside(drawn(band, area, palette, style, bottom), area, bottom),
{
    if !(area.rows == 0 || area.width == 0 || band.levels@.len() < area.width) {
        let half = area.rows as int / 2;
        match style {
            Style::Bars => {
                lemma_bars_inside(
                    area,
                    band.levels@,
                    band.peaks@,
                    area.width as nat,
                    area.top + area.rows - 1,
                    area.rows as int,
                    bottom,
                    palette,
                );
            },
            Style::Mirror => {
                lemma_bars_inside(
                    area,
                    band.levels@,
                    band.peaks@,
                    area.width as nat,
                    area.top + area.rows - half - 1,
                    area.rows - half,
                    bottom,
                    palette,
                );
                lemma_reflection_inside(
                    area,
                    band.reflections@,
                    area.width as nat,
                    area.top + area.rows - half,
                    half as nat,
                    bottom,
                    palette.quiet,
                );
            },
            Style::Wave => {
                lemma_wave_inside(area, band.levels@, area.width as nat, palette, bottom);
            },
            Style::Vu => {
                let row = area.top + half;
                if row < bottom {
                    lemma_meter_inside(
                        area,
                        vstd::math::min(band.average as int, area.width as int) as nat,
                        row,
                        palette,
                        bottom,
                    );
                }
            },
        }
    }
}

// ---------------------------------------------------------------------------
// What can be read off a band.
// ---------------------------------------------------------------------------

/// How many eighths of its cell a block element fills from the bottom: the eighths follow
/// one another, from the lowest one to the full block.
pub open spec fn block_height(glyph: char) -> int {
    if 0x2581 <= glyph as int <= 0x2588 {
        glyph as int - 0x2580
    } else {
        0
    }
}

/// How many eighths of the cell at (`x`, `y`) block elements fill.
pub open spec fn filled_at(marks: Seq<Mark>, x: int, y: int) -> int
    decreases marks.len(),
{
    if marks.len() == 0 {
        0
    } else {
        let run = marks.last();
        filled_at(marks.drop_last(), x, y) + if run.x == x && run.y == y && run.text.len() == 1 {
            block_height(run.text[0])
        } else {
            0
        }
    }
}

/// How many eighths of the `tiers` cells of column `x` from row `baseline` up are filled.
pub open spec fn column_height(marks: Seq<Mark>, x: int, baseline: int, tiers: nat) -> int
    decreases tiers,
{
    if tiers == 0 {
        0
    } else {
        column_height(marks, x, baseline, (tiers - 1) as nat) + filled_at(
            marks,
            x,
            baseline - (tiers - 1),
        )
    }
}

/// Whether `glyph` alone is printed at the cell (`x`, `y`).
pub open spec fn printed_at(marks: Seq<Mark>, x: int, y: int, glyph: char) -> bool {
    exists|i: int|
        0 <= i < marks.len() && (#[trigger] marks[i]).x == x && marks[i].y == y && marks[i].text
            == seq![glyph]
}

/// Whether nothing is printed in column `x`.
pub open spec fn bare(marks: Seq<Mark>, x: int) -> bool {
    forall|i: int| 0 <= i < marks.len() ==> (#[trigger] marks[i]).x != x
}

proof fn lemma_filled_join(one: Seq<Mark>, other: Seq<Mark>, x: int, y: int)
    ensures
        filled_at(one + other, x, y) == filled_at(one, x, y) + filled_at(other, x, y),
    decreases other.len(),
{
    if other.len() == 0 {
        assert(one + other =~= one);
    } else {
        assert((one + other).drop_last() =~= one + other.drop_last());
        lemma_filled_join(one, other.drop_last(), x, y);
    }
}

proof fn lemma_bare_is_empty(marks: Seq<Mark>, x: int, y: int)
    requires
        bare(marks, x),
    ensures
        filled_at(marks, x, y) == 0,
    decreases marks.len(),
{
    if marks.len() > 0 {
        assert(bare(marks.drop_last(), x)) by {
            assert forall|i: int| 0 <= i < marks.drop_last().len() implies (
            #[trigger] marks.drop_last()[i]).x != x by {
                assert(marks.drop_last()[i] == marks[i]);
            }
        }
        assert(marks[marks.len() - 1].x != x);
        lemma_bare_is_empty(marks.drop_last(), x, y);
    }
}

proof fn lemma_bare_join(one: Seq<Mark>, other: Seq<Mark>, x: int)
    requires
        bare(one, x),
        bare(other, x),
    ensures
        bare(one + other, x),
{
    assert forall|i: int| 0 <= i < (one + other).len() implies (#[trigger] (one + other)[i]).x
        != x by {
        if i < one.len() {
            assert((one + other)[i] == one[i]);
        } else {
            assert((one + other)[i] == other[i - one.len()]);
        }
    }
}

proof fn lemma_printed_join(one: Seq<Mark>, other: Seq<Mark>, x: int, y: int, glyph: char)
    ensures
        printed_at(one + other, x, y, glyph) <==> printed_at(one, x, y, glyph) || printed_at(
            other,
            x,
            y,
            glyph,
        ),
{
    let all = one + other;
    if printed_at(one, x, y, glyph) {
        let i = choose|i: int|
            0 <= i < one.len() && (#[trigger] one[i]).x == x && one[i].y == y && one[i].text
                == seq![glyph];
        assert(all[i] == one[i]);
    }
    if printed_at(other, x, y, glyph) {
        let i = choose|i: int|
            0 <= i < other.len() && (#[trigger] other[i]).x == x && other[i].y == y
                && other[i].text == seq![glyph];
        assert(all[i + one.len()] == other[i]);
    }
    if printed_at(all, x, y, glyph) {
        let i = choose|i: int|
            0 <= i < all.len() && (#[trigger] all[i]).x == x && all[i].y == y && all[i].text
                == seq![glyph];
        if i < one.len() {
            assert(all[i] == one[i]);
        } else {
            assert(all[i] == other[i - one.len()]);
        }
    }
}

proof fn lemma_one_dot(x: int, y: int, glyph: char, ink: Ink, column: int, row: int, other: char)
    ensures
        filled_at(seq![dot(x, y, glyph, ink)], column, row) == if x == column && y == row {
            block_height(glyph)
        } else {
            0
        },
        printed_at(seq![dot(x, y, glyph, ink)], column, row, other) <==> x == column && y == row
            && glyph == other,
{
    let one = seq![dot(x, y, glyph, ink)];
    assert(one.drop_last() =~= Seq::<Mark>::empty());
    assert(filled_at(one.drop_last(), column, row) == 0);
    assert(one.last() == one[0]);
    assert(seq![glyph][0] == glyph && seq![other][0] == other);
    if x == column && y == row && glyph == other {
        assert(one[0].text == seq![other]);
    }
}

/// The height of the glyph for so many eighths is that many eighths.
proof fn lemma_block_height(eighths: nat)
    requires
        1 <= eighths <= 8,
    ensures
        block_height(block_glyph(eighths)) == eighths,
        block_glyph(eighths) != '\u{2594}',
{
}

/// What the cells of one bar below tier `tiers` fill.
proof fn lemma_tiers_fill(
    x: int,
    baseline: int,
    level: int,
    tiers: nat,
    rows: int,
    bottom: int,
    palette: Palette,
    tier: int,
)
    requires
        level >= 0,
        baseline < bottom,
    ensures
        filled_at(
            tier_marks(x, baseline, level, tiers, rows, bottom, palette),
            x,
            baseline - tier,
        ) == if 0 <= tier < tiers {
            eighths_at(level, tier)
        } else {
            0
        },
        !printed_at(
            tier_marks(x, baseline, level, tiers, rows, bottom, palette),
            x,
            baseline - tier,
            '\u{2594}',
        ),
        forall|column: int|
            column != x ==> #[trigger] bare(
                tier_marks(x, baseline, level, tiers, rows, bottom, palette),
                column,
            ),
    decreases tiers,
{
    if tiers > 0 {
        let top = tiers - 1;
        let below = tier_marks(x, baseline, level, top as nat, rows, bottom, palette);
        lemma_tiers_fill(x, baseline, level, top as nat, rows, bottom, palette, tier);
        if eighths_at(level, top) > 0 {
            let glyph = block_glyph(eighths_at(level, top) as nat);
            let ink = tier_ink(palette, top, rows);
            let cell = seq![dot(x, baseline - top, glyph, ink)];
            lemma_block_height(eighths_at(level, top) as nat);
            lemma_one_dot(x, baseline - top, glyph, ink, x, baseline - tier, '\u{2594}');
            lemma_filled_join(below, cell, x, baseline - tier);
            lemma_printed_join(below, cell, x, baseline - tier, '\u{2594}');
            assert(below.push(cell[0]) =~= below + cell);
            assert forall|column: int| column != x implies #[trigger] bare(
                tier_marks(x, baseline, level, tiers, rows, bottom, palette),
                column,
            ) by {
                assert(bare(below, column));
                assert(bare(cell, column));
                lemma_bare_join(below, cell, column);
            }
        }
    }
}

/// What one column of bars fills and marks.
proof fn lemma_bar_fill(
    x: int,
    baseline: int,
    level: int,
    peak: int,
    rows: int,
    bottom: int,
    palette: Palette,
    tier: int,
)
    requires
        level >= 0,
        peak >= 0,
        0 <= tier < rows,
        baseline < bottom,
    ensures
        ({
            let marks = bar_marks(x, baseline, level, peak, rows, bottom, palette);
            &&& filled_at(marks, x, baseline - tier) == if level == 0 && tier == 0 {
                1
            } else {
                eighths_at(level, tier)
            }
            &&& printed_at(marks, x, baseline - tier, '\u{2594}') <==> peak > 0 && tier == peak / 8
                && (level == 0 || tier > (level - 1) / 8)
            &&& forall|column: int| column != x ==> #[trigger] bare(marks, column)
        }),
{
    let y = baseline - tier;
    let floor = if level == 0 && baseline < bottom {
        seq![dot(x, baseline, '\u{2581}', palette.quiet)]
    } else {
        Seq::empty()
    };
    let bar = tier_marks(x, baseline, level, rows as nat, rows, bottom, palette);
    let marker = if peak > 0 && peak / 8 < rows && (level == 0 || peak / 8 > (level - 1) / 8)
        && baseline - peak / 8 < bottom {
        seq![dot(x, baseline - peak / 8, '\u{2594}', marker_ink(palette))]
    } else {
        Seq::empty()
    };
    lemma_tiers_fill(x, baseline, level, rows as nat, rows, bottom, palette, tier);
    lemma_one_dot(x, baseline, '\u{2581}', palette.quiet, x, y, '\u{2594}');
    lemma_one_dot(x, baseline - peak / 8, '\u{2594}', marker_ink(palette), x, y, '\u{2594}');
    lemma_filled_join(floor, bar, x, y);
    lemma_filled_join(floor + bar, marker, x, y);
    lemma_printed_join(floor, bar, x, y, '\u{2594}');
    lemma_printed_join(floor + bar, marker, x, y, '\u{2594}');
    assert forall|column: int| column != x implies #[trigger] bare(
        bar_marks(x, baseline, level, peak, rows, bottom, palette),
        column,
    ) by {
        assert(bare(floor, column));
        assert(bare(marker, column));
        lemma_bare_join(floor, bar, column);
        lemma_bare_join(floor + bar, marker, column);
    }
}

proof fn lemma_bars_fill(
    levels: Seq<usize>,
    peaks: Seq<usize>,
    columns: nat,
    origin: int,
    baseline: int,
    rows: int,
    bottom: int,
    palette: Palette,
    column: int,
    tier: int,
)
    requires
        0 <= column < columns,
        0 <= tier < rows,
        baseline < bottom,
    ensures
        ({
            let marks = bars_marks(
                levels,
                peaks,
                columns,
                origin,
                baseline,
                rows,
                bottom,
                palette,
            );
            let level = levels[column] as int;
            let peak = peaks[column] as int;
            let x = origin + column;
            &&& filled_at(marks, x, baseline - tier) == if level == 0 && tier == 0 {
                1
            } else {
                eighths_at(level, tier)
            }
            &&& printed_at(marks, x, baseline - tier, '\u{2594}') <==> peak > 0 && tier == peak / 8
                && (level == 0 || tier > (level - 1) / 8)
        }),
    decreases columns,
{
    let last = columns - 1;
    let x = origin + column;
    let y = baseline - tier;
    let before = bars_marks(levels, peaks, last as nat, origin, baseline, rows, bottom, palette);
    let here = bar_marks(
        origin + last,
        baseline,
        levels[last] as int,
        peaks[last] as int,
        rows,
        bottom,
        palette,
    );
    lemma_bar_fill(
        origin + last,
        baseline,
        levels[last] as int,
        peaks[last] as int,
        rows,
        bottom,
        palette,
        tier,
    );
    lemma_filled_join(before, here, x, y);
    lemma_printed_join(before, here, x, y, '\u{2594}');
    if column == last {
        lemma_bars_bare(levels, peaks, last as nat, origin, baseline, rows, bottom, palette, x);
        lemma_bare_is_empty(before, x, y);
    } else {
        lemma_bars_fill(
            levels,
            peaks,
            last as nat,
            origin,
            baseline,
            rows,
            bottom,
            palette,
            column,
            tier,
        );
        assert(bare(here, x));
        lemma_bare_is_empty(here, x, y);
    }
}

proof fn lemma_bars_bare(
    levels: Seq<usize>,
    peaks: Seq<usize>,
    columns: nat,
    origin: int,
    baseline: int,
    rows: int,
    bottom: int,
    palette: Palette,
    x: int,
)
    requires
        x < origin || x >= origin + columns,
        0 < rows,
        baseline < bottom,
    ensures
        bare(
            bars_marks(levels, peaks, columns, origin, baseline, rows, bottom, palette),
            x,
        ),
    decreases columns,
{
    if columns > 0 {
        let last = columns - 1;
        lemma_bars_bare(levels, peaks, last as nat, origin, baseline, rows, bottom, palette, x);
        lemma_bar_fill(
            origin + last,
            baseline,
            levels[last] as int,
            peaks[last] as int,
            rows,
            bottom,
            palette,
            0,
        );
        lemma_bare_join(
            bars_marks(levels, peaks, last as nat, origin, baseline, rows, bottom, palette),
            bar_marks(
                origin + last,
                baseline,
                levels[last] as int,
                peaks[last] as int,
                rows,
                bottom,
                palette,
            ),
            x,
        );
    }
}

/// A column whose cells fill as [`eighths_at`] says is as high as its level, cut off at the
/// top.
proof fn lemma_column_height(marks: Seq<Mark>, x: int, baseline: int, level: int, tiers: nat)
    requires
        level > 0,
        forall|tier: int|
            0 <= tier < tiers ==> #[trigger] filled_at(marks, x, baseline - tier) == eighths_at(
                level,
                tier,
            ),
    ensures
        column_height(marks, x, baseline, tiers) == vstd::math::min(level, 8 * tiers as int),
    decreases tiers,
{
    if tiers > 0 {
        lemma_column_height(marks, x, baseline, level, (tiers - 1) as nat);
        assert(filled_at(marks, x, baseline - (tiers - 1)) == eighths_at(level, tiers - 1));
    }
}

/// A bar is as high as its level: the blocks of a column add up to that many eighths, as far
/// as the rows reach, and each stands on a full one. Where its marker is does not matter to
/// it. A bar that has decayed away leaves a floor of one eighth.
pub proof fn law_a_bar_is_as_high_as_its_level(
    band: Band,
    area: Area,
    palette: Palette,
    sunk: int,
    bottom: int,
    column: int,
)
    requires
        0 <= sunk < area.rows,
        area.top + area.rows - sunk <= bottom,
        0 <= column < area.width <= band.levels@.len(),
    ensures
        ({
            let marks = bars_drawn(band, area, palette, sunk, bottom);
            let x = area.origin + column;
            let baseline = area.top + area.rows - sunk - 1;
            let rows = area.rows - sunk;
            let level = band.levels@[column] as int;
            &&& level > 0 ==> column_height(marks, x, baseline, rows as nat) == vstd::math::min(
                level,
                8 * rows,
            )
            &&& level == 0 ==> column_height(marks, x, baseline, rows as nat) == 1 && filled_at(
                marks,
                x,
                baseline,
            ) == 1
            &&& forall|tier: int|
                0 <= tier < rows ==> 0 <= #[trigger] filled_at(marks, x, baseline - tier) <= 8 && (
                tier > 0 && filled_at(marks, x, baseline - tier) > 0 ==> filled_at(
                    marks,
                    x,
                    baseline - (tier - 1),
                ) == 8)
        }),
{
    let marks = bars_drawn(band, area, palette, sunk, bottom);
    let x = area.origin + column;
    let baseline = area.top + area.rows - sunk - 1;
    let rows = area.rows - sunk;
    let level = band.levels@[column] as int;
    assert forall|tier: int| 0 <= tier < rows implies #[trigger] filled_at(
        marks,
        x,
        baseline - tier,
    ) == if level == 0 && tier == 0 {
        1
    } else {
        eighths_at(level, tier)
    } by {
        lemma_bars_fill(
            band.levels@,
            band.peaks@,
            area.width as nat,
            area.origin as int,
            baseline,
            rows,
            bottom,
            palette,
            column,
            tier,
        );
    }
    if level > 0 {
        lemma_column_height(marks, x, baseline, level, rows as nat);
    } else {
        lemma_floor_height(marks, x, baseline, rows as nat);
        assert(filled_at(marks, x, baseline - 0) == 1);
    }
    assert forall|tier: int| 0 <= tier < rows implies 0 <= #[trigger] filled_at(
        marks,
        x,
        baseline - tier,
    ) <= 8 && (tier > 0 && filled_at(marks, x, baseline - tier) > 0 ==> filled_at(
        marks,
        x,
        baseline - (tier - 1),
    ) == 8) by {
        if tier > 0 {
            assert(filled_at(marks, x, baseline - (tier - 1)) == if level == 0 && tier - 1 == 0 {
                1
            } else {
                eighths_at(level, tier - 1)
            });
        }
    }
}

proof fn lemma_floor_height(marks: Seq<Mark>, x: int, baseline: int, tiers: nat)
    requires
        forall|tier: int|
            0 <= tier < tiers ==> #[trigger] filled_at(marks, x, baseline - tier) == if tier == 0 {
                1int
            } else {
                0int
            },
    ensures
        column_height(marks, x, baseline, tiers) == if tiers == 0 {
            0int
        } else {
            1int
        },
    decreases tiers,
{
    if tiers > 0 {
        lemma_floor_height(marks, x, baseline, (tiers - 1) as nat);
        assert(filled_at(marks, x, baseline - (tiers - 1)) == if tiers - 1 == 0 {
            1int
        } else {
            0int
        });
    }
}

/// The marker of a column hangs in the cell that its peak lies in, and only where that cell
/// is clear of the bar.
pub proof fn law_a_marker_floats_at_its_peak(
    band: Band,
    area: Area,
    palette: Palette,
    sunk: int,
    bottom: int,
    column: int,
    tier: int,
)
    requires
        0 <= tier < area.rows - sunk,
        0 <= sunk,
        area.top + area.rows - sunk <= bottom,
        0 <= column < area.width <= band.levels@.len(),
    ensures
        ({
            let marks = bars_drawn(band, area, palette, sunk, bottom);
            let baseline = area.top + area.rows - sunk - 1;
            let peak = band.peaks@[column] as int;
            let level = band.levels@[column] as int;
            printed_at(marks, area.origin + column, baseline - tier, '\u{2594}') <==> peak > 0
                && 8 * tier <= peak < 8 * tier + 8 && level <= 8 * tier
        }),
{
    lemma_bars_fill(
        band.levels@,
        band.peaks@,
        area.width as nat,
        area.origin as int,
        area.top + area.rows - sunk - 1,
        area.rows - sunk,
        bottom,
        palette,
        column,
        tier,
    );
}

/// Drawing a band as bars gives them the whole area.
pub proof fn law_plain_bars_take_the_whole_area(
    band: Band,
    area: Area,
    palette: Palette,
    bottom: int,
)
    requires
        area.width <= band.levels@.len(),
        area.width > 0,
        area.rows > 0,
    ensures
        drawn(band, area, palette, Style::Bars, bottom) == bars_drawn(
            band,
            area,
            palette,
            0,
            bottom,
        ),
{
}

/// Whether a run of a bar, whose top row is `top`, has the colour that is due to it.
pub open spec fn well_coloured(run: Mark, palette: Palette, top: int) -> bool {
    let glyph = run.text[0];
    &&& run.text.len() == 1
    &&& !palette.live ==> run.ink == palette.quiet
    &&& palette.live && glyph == '\u{2594}' ==> run.ink == palette.hot
    &&& palette.live && block_height(glyph) > 0 && run.y == top ==> run.ink == palette.hot || (
    run.ink == palette.quiet && glyph == '\u{2581}')
    &&& palette.live && block_height(glyph) > 0 && run.y != top ==> run.ink == palette.warm || (
    run.ink == palette.quiet && glyph == '\u{2581}')
}

/// A bar glows at the top of the band and is warm below it, markers glow wherever they are,
/// and a band that nothing feeds is quiet throughout.
pub proof fn law_only_the_top_of_a_band_is_hot(
    band: Band,
    area: Area,
    palette: Palette,
    sunk: int,
    bottom: int,
)
    requires
        0 <= sunk < area.rows,
        area.width <= band.levels@.len(),
    ensures
        forall|i: int|
            0 <= i < bars_drawn(band, area, palette, sunk, bottom).len() ==> well_coloured(
                #[trigger] bars_drawn(band, area, palette, sunk, bottom)[i],
                palette,
                area.top as int,
            ),
{
    lemma_bars_coloured(
        band.levels@,
        band.peaks@,
        area.width as nat,
        area.origin as int,
        area.top + area.rows - sunk - 1,
        area.rows - sunk,
        bottom,
        palette,
    );
}

proof fn lemma_tiers_coloured(
    x: int,
    baseline: int,
    level: int,
    tiers: nat,
    rows: int,
    bottom: int,
    palette: Palette,
)
    requires
        tiers <= rows,
    ensures
        forall|i: int|
            0 <= i < tier_marks(x, baseline, level, tiers, rows, bottom, palette).len()
                ==> well_coloured(
                #[trigger] tier_marks(x, baseline, level, tiers, rows, bottom, palette)[i],
                palette,
                baseline - (rows - 1),
            ),
    decreases tiers,
{
    if tiers > 0 {
        let tier = tiers - 1;
        lemma_tiers_coloured(x, baseline, level, tier as nat, rows, bottom, palette);
        let below = tier_marks(x, baseline, level, tier as nat, rows, bottom, palette);
        let marks = tier_marks(x, baseline, level, tiers, rows, bottom, palette);
        assert forall|i: int| 0 <= i < marks.len() implies well_coloured(
            #[trigger] marks[i],
            palette,
            baseline - (rows - 1),
        ) by {
            if i < below.len() {
                assert(marks[i] == below[i]);
            } else {
                let glyph = block_glyph(eighths_at(level, tier) as nat);
                lemma_block_height(eighths_at(level, tier) as nat);
                assert(marks[i] == dot(x, baseline - tier, glyph, tier_ink(palette, tier, rows)));
                assert(seq![glyph][0] == glyph);
            }
        }
    }
}

proof fn lemma_bars_coloured(
    levels: Seq<usize>,
    peaks: Seq<usize>,
    columns: nat,
    origin: int,
    baseline: int,
    rows: int,
    bottom: int,
    palette: Palette,
)
    requires
        rows > 0,
    ensures
        forall|i: int|
            0 <= i < bars_marks(
                levels,
                peaks,
                columns,
                origin,
                baseline,
                rows,
                bottom,
                palette,
            ).len() ==> well_coloured(
                #[trigger] bars_marks(
                    levels,
                    peaks,
                    columns,
                    origin,
                    baseline,
                    rows,
                    bottom,
                    palette,
                )[i],
                palette,
                baseline - (rows - 1),
            ),
    decreases columns,
{
    if columns > 0 {
        let last = columns - 1;
        lemma_bars_coloured(
            levels,
            peaks,
            last as nat,
            origin,
            baseline,
            rows,
            bottom,
            palette,
        );
        let x = origin + last;
        let level = levels[last] as int;
        let peak = peaks[last] as int;
        let before = bars_marks(
            levels,
            peaks,
            last as nat,
            origin,
            baseline,
            rows,
            bottom,
            palette,
        );
        let bar = tier_marks(x, baseline, level, rows as nat, rows, bottom, palette);
        let here = bar_marks(x, baseline, level, peak, rows, bottom, palette);
        let marks = before + here;
        lemma_tiers_coloured(x, baseline, level, rows as nat, rows, bottom, palette);
        assert(seq!['\u{2581}'][0] == '\u{2581}' && seq!['\u{2594}'][0] == '\u{2594}');
        let floors: int = if level == 0 && baseline < bottom {
            1
        } else {
            0
        };
        assert forall|i: int| 0 <= i < here.len() implies well_coloured(
            #[trigger] here[i],
            palette,
            baseline - (rows - 1),
        ) by {
            if i < floors {
                assert(here[i] == dot(x, baseline, '\u{2581}', palette.quiet));
            } else if i < floors + bar.len() {
                assert(here[i] == bar[i - floors]);
            } else {
                assert(here[i] == dot(x, baseline - peak / 8, '\u{2594}', marker_ink(palette)));
            }
        }
        assert forall|i: int| 0 <= i < marks.len() implies well_coloured(
            #[trigger] marks[i],
            palette,
            baseline - (rows - 1),
        ) by {
            if i < before.len() {
                assert(marks[i] == before[i]);
            } else {
                assert(marks[i] == here[i - before.len()]);
            }
        }
    }
}

// ---------------------------------------------------------------------------
// What can be read off the other styles.
// ---------------------------------------------------------------------------

/// How many eighths of its cell a block element that hangs from the top fills.
pub open spec fn hanging_height(glyph: char) -> int {
    if glyph == '\u{2594}' {
        1
    } else if glyph == '\u{2580}' {
        4
    } else if glyph == '\u{2588}' {
        8
    } else {
        0
    }
}

/// Whether every run in column `x` that starts in row `y` is one glyph that hangs down
/// about `eighths` eighths, and there is one where that is anything at all.
pub open spec fn hangs_about(marks: Seq<Mark>, x: int, y: int, eighths: int) -> bool {
    &&& forall|i: int|
        0 <= i < marks.len() && (#[trigger] marks[i]).x == x && marks[i].y == y ==> {
            &&& eighths > 0
            &&& marks[i].text.len() == 1
            &&& -2 <= hanging_height(marks[i].text[0]) - eighths <= 2
            &&& hanging_height(marks[i].text[0]) > 0
            &&& eighths == 8 ==> hanging_height(marks[i].text[0]) == 8
        }
    &&& eighths > 0 ==> exists|i: int|
        0 <= i < marks.len() && (#[trigger] marks[i]).x == x && marks[i].y == y
}

proof fn lemma_hanging_fill(
    x: int,
    surface: int,
    level: int,
    depths: nat,
    bottom: int,
    ink: Ink,
    depth: int,
)
    requires
        surface + depths <= bottom,
        0 <= depth,
    ensures
        ({
            let marks = hanging_marks(x, surface, level, depths, bottom, ink);
            &&& hangs_about(marks, x, surface + depth, if depth < depths {
                eighths_at(level, depth)
            } else {
                0
            })
            &&& forall|i: int|
                0 <= i < marks.len() ==> (#[trigger] marks[i]).x == x && marks[i].y >= surface
                    && marks[i].ink == ink
        }),
    decreases depths,
{
    if depths > 0 {
        let last = depths - 1;
        let above = hanging_marks(x, surface, level, last as nat, bottom, ink);
        let marks = hanging_marks(x, surface, level, depths, bottom, ink);
        lemma_hanging_fill(x, surface, level, last as nat, bottom, ink, depth);
        let eighths = if depth < depths {
            eighths_at(level, depth)
        } else {
            0
        };
        assert forall|i: int|
            0 <= i < marks.len() && (#[trigger] marks[i]).x == x && marks[i].y == surface
                + depth implies {
            &&& eighths > 0
            &&& marks[i].text.len() == 1
            &&& -2 <= hanging_height(marks[i].text[0]) - eighths <= 2
            &&& hanging_height(marks[i].text[0]) > 0
            &&& eighths == 8 ==> hanging_height(marks[i].text[0]) == 8
        } by {
            if i < above.len() {
                assert(marks[i] == above[i]);
            }
        }
        if eighths > 0 {
            if depth == last {
                assert(marks[above.len() as int].x == x);
            } else {
                let i = choose|i: int|
                    0 <= i < above.len() && (#[trigger] above[i]).x == x && above[i].y == surface
                        + depth;
                assert(marks[i] == above[i]);
            }
        }
        assert forall|i: int| 0 <= i < marks.len() implies (#[trigger] marks[i]).x == x
            && marks[i].y >= surface && marks[i].ink == ink by {
            if i < above.len() {
                assert(marks[i] == above[i]);
            }
        }
    }
}

proof fn lemma_hangs_join(one: Seq<Mark>, other: Seq<Mark>, x: int, y: int, eighths: int)
    requires
        hangs_about(one, x, y, eighths) && bare(other, x) || hangs_about(other, x, y, eighths) && (
        forall|i: int| 0 <= i < one.len() ==> (#[trigger] one[i]).x != x || one[i].y != y),
    ensures
        hangs_about(one + other, x, y, eighths),
{
    let all = one + other;
    assert forall|i: int|
        0 <= i < all.len() && (#[trigger] all[i]).x == x && all[i].y == y implies {
        &&& eighths > 0
        &&& all[i].text.len() == 1
        &&& -2 <= hanging_height(all[i].text[0]) - eighths <= 2
        &&& hanging_height(all[i].text[0]) > 0
        &&& eighths == 8 ==> hanging_height(all[i].text[0]) == 8
    } by {
        if i < one.len() {
            assert(all[i] == one[i]);
        } else {
            assert(all[i] == other[i - one.len()]);
        }
    }
    if eighths > 0 {
        if hangs_about(one, x, y, eighths) && bare(other, x) {
            let i = choose|i: int|
                0 <= i < one.len() && (#[trigger] one[i]).x == x && one[i].y == y;
            assert(all[i] == one[i]);
        } else {
            let i = choose|i: int|
                0 <= i < other.len() && (#[trigger] other[i]).x == x && other[i].y == y;
            assert(all[i + one.len()] == other[i]);
        }
    }
}

proof fn lemma_reflection_fill(
    reflections: Seq<usize>,
    columns: nat,
    origin: int,
    surface: int,
    reflected: nat,
    bottom: int,
    ink: Ink,
    column: int,
    depth: int,
)
    requires
        surface + reflected <= bottom,
        0 <= depth < reflected,
    ensures
        ({
            let marks = reflection_marks(
                reflections,
                columns,
                origin,
                surface,
                reflected,
                bottom,
                ink,
            );
            let height = vstd::math::min(reflections[column] as int, 8 * reflected as int);
            &&& 0 <= column < columns ==> hangs_about(
                marks,
                origin + column,
                surface + depth,
                eighths_at(height, depth),
            )
            &&& forall|i: int|
                0 <= i < marks.len() ==> (#[trigger] marks[i]).y >= surface && marks[i].x < origin
                    + columns && marks[i].ink == ink
        }),
    decreases columns,
{
    if columns > 0 {
        let last = columns - 1;
        let before = reflection_marks(
            reflections,
            last as nat,
            origin,
            surface,
            reflected,
            bottom,
            ink,
        );
        let level = vstd::math::min(reflections[last] as int, reflected as int * 8);
        let here = hanging_marks(origin + last, surface, level, reflected, bottom, ink);
        let marks = before + here;
        let x = origin + column;
        lemma_hanging_fill(origin + last, surface, level, reflected, bottom, ink, depth);
        lemma_reflection_fill(
            reflections,
            last as nat,
            origin,
            surface,
            reflected,
            bottom,
            ink,
            column,
            depth,
        );
        if 0 <= column < columns {
            let height = vstd::math::min(reflections[column] as int, 8 * reflected as int);
            if column == last {
                lemma_hangs_join(before, here, x, surface + depth, eighths_at(height, depth));
            } else {
                assert(bare(here, x));
                lemma_hangs_join(before, here, x, surface + depth, eighths_at(height, depth));
            }
        }
        assert forall|i: int| 0 <= i < marks.len() implies (#[trigger] marks[i]).y >= surface
            && marks[i].x < origin + columns && marks[i].ink == ink by {
            if i < before.len() {
                assert(marks[i] == before[i]);
            } else {
                assert(marks[i] == here[i - before.len()]);
            }
        }
    }
}

/// A mirrored band is its bars, lifted by half of the rows, over a quiet reflection: a cell
/// of the lower half is hung with something exactly where the reflection of its column
/// reaches into it, and with about as much of it as that is.
pub proof fn law_a_mirror_shows_bars_over_their_reflection(
    band: Band,
    area: Area,
    palette: Palette,
    bottom: int,
    column: int,
    depth: int,
)
    requires
        0 <= depth < area.rows as int / 2,
        area.top + area.rows <= bottom,
        0 <= column < area.width <= band.levels@.len(),
    ensures
        ({
            let marks = drawn(band, area, palette, Style::Mirror, bottom);
            let half = area.rows as int / 2;
            let upper = bars_drawn(band, area, palette, half, bottom);
            let surface = area.top + area.rows - half;
            let reached = vstd::math::min(band.reflections@[column] as int, 8 * half) - 8 * depth;
            &&& upper.is_prefix_of(marks)
            &&& forall|i: int|
                0 <= i < upper.len() ==> area.top <= (#[trigger] upper[i]).y < surface
            &&& forall|i: int|
                upper.len() <= i < marks.len() ==> surface <= (#[trigger] marks[i]).y < area.top
                    + area.rows && marks[i].ink == palette.quiet
            &&& hangs_about(
                marks,
                area.origin + column,
                surface + depth,
                if reached <= 0 {
                    0
                } else {
                    vstd::math::min(reached, 8)
                },
            )
        }),
{
    let half = area.rows as int / 2;
    let surface = area.top + area.rows - half;
    let upper = bars_drawn(band, area, palette, half, bottom);
    let lower = reflection_marks(
        band.reflections@,
        area.width as nat,
        area.origin as int,
        surface,
        half as nat,
        bottom,
        palette.quiet,
    );
    let marks = upper + lower;
    lemma_reflection_fill(
        band.reflections@,
        area.width as nat,
        area.origin as int,
        surface,
        half as nat,
        bottom,
        palette.quiet,
        column,
        depth,
    );
    let short = Area { rows: (area.rows - half) as usize, ..area };
    lemma_bars_inside(
        short,
        band.levels@,
        band.peaks@,
        area.width as nat,
        surface - 1,
        area.rows - half,
        bottom,
        palette,
    );
    lemma_reflection_inside(
        area,
        band.reflections@,
        area.width as nat,
        surface,
        half as nat,
        bottom,
        palette.quiet,
    );
    assert(upper =~= marks.subrange(0, upper.len() as int));
    assert forall|i: int| upper.len() <= i < marks.len() implies surface <= (
    #[trigger] marks[i]).y < area.top + area.rows && marks[i].ink == palette.quiet by {
        assert(marks[i] == lower[i - upper.len()]);
    }
    let height = vstd::math::min(band.reflections@[column] as int, 8 * half);
    lemma_hangs_join(
        upper,
        lower,
        area.origin + column,
        surface + depth,
        eighths_at(height, depth),
    );
}

proof fn lemma_wave_shape(
    levels: Seq<usize>,
    columns: nat,
    area: Area,
    palette: Palette,
    bottom: int,
)
    requires
        area.rows > 0,
        area.top + area.rows <= bottom,
    ensures
        ({
            let marks = wave_marks(levels, columns, area, palette, bottom);
            &&& marks.len() == columns
            &&& forall|i: int|
                0 <= i < columns ==> {
                    let run = #[trigger] marks[i];
                    &&& run.x == area.origin + i
                    &&& run.text.len() == 1
                    &&& block_height(run.text[0]) > 0
                    &&& 8 * (area.top + area.rows - 1 - run.y) + block_height(run.text[0])
                        == vstd::math::min(levels[i] + 1, 8 * area.rows)
                    &&& run.ink == if palette.live {
                        palette.warm
                    } else {
                        palette.quiet
                    }
                }
        }),
    decreases columns,
{
    if columns > 0 {
        let last = columns - 1;
        lemma_wave_shape(levels, last as nat, area, palette, bottom);
        let eighths = vstd::math::min(levels[last] as int, area.rows * 8 - 1);
        lemma_block_height((eighths % 8 + 1) as nat);
    }
}

/// A wave is one glyph to a column, and its upper edge lies just above the level of that
/// column, as far as the rows reach.
pub proof fn law_a_wave_traces_the_levels(
    band: Band,
    area: Area,
    palette: Palette,
    bottom: int,
    column: int,
)
    requires
        area.rows > 0,
        area.top + area.rows <= bottom,
        0 <= column < area.width <= band.levels@.len(),
    ensures
        ({
            let marks = drawn(band, area, palette, Style::Wave, bottom);
            let run = marks[column];
            let height = block_height(run.text[0]);
            &&& marks.len() == area.width
            &&& run.x == area.origin + column
            &&& run.text.len() == 1
            &&& 1 <= height <= 8
            &&& 8 * (area.top + area.rows - 1 - run.y) + height == vstd::math::min(
                band.levels@[column] + 1,
                8 * area.rows,
            )
            &&& run.ink == if palette.live {
                palette.warm
            } else {
                palette.quiet
            }
        }),
{
    lemma_wave_shape(band.levels@, area.width as nat, area, palette, bottom);
    let marks = drawn(band, area, palette, Style::Wave, bottom);
    assert(marks[column].text.len() == 1);
}

proof fn lemma_meter_shape(columns: nat, row: int, area: Area, palette: Palette)
    requires
        columns <= area.width,
    ensures
        ({
            let marks = meter_marks(columns, row, area, palette);
            &&& marks.len() == columns
            &&& forall|i: int|
                0 <= i < columns ==> {
                    let run = #[trigger] marks[i];
                    &&& run.x == area.origin + i
                    &&& run.y == row
                    &&& run.text == seq!['\u{2588}']
                    &&& !palette.live ==> run.ink == palette.quiet
                    &&& palette.live && 5 * i < 4 * area.width ==> run.ink == palette.warm
                    &&& palette.live && 5 * i >= 4 * area.width ==> run.ink == palette.hot
                }
        }),
    decreases columns,
{
    if columns > 0 {
        lemma_meter_shape((columns - 1) as nat, row, area, palette);
    }
}

/// A meter is drawn across the middle row: a track over the whole width, blocks from the
/// left up to the average, the last fifth of the width hot, and a marker in the column of
/// the loudest bar where that lies past them.
pub proof fn law_a_meter_shows_the_average_and_the_loudest(
    band: Band,
    area: Area,
    palette: Palette,
    bottom: int,
    column: int,
)
    requires
        area.rows > 0,
        area.top + area.rows <= bottom,
        0 <= column < area.width <= band.levels@.len(),
    ensures
        ({
            let marks = drawn(band, area, palette, Style::Vu, bottom);
            let x = area.origin + column;
            let row = area.top + area.rows as int / 2;
            let marker = vstd::math::min(band.loudest as int, area.width - 1);
            &&& marks[0].x == area.origin && marks[0].text.len() == area.width && marks[0].ink
                == palette.quiet
            &&& forall|i: int| 0 <= i < marks.len() ==> (#[trigger] marks[i]).y == row
            &&& area.width > 1 ==> (printed_at(marks, x, row, '\u{2588}') <==> column
                < band.average)
            &&& area.width > 1 ==> (printed_at(marks, x, row, '\u{2503}') <==> column == marker
                && band.average < marker)
            &&& forall|i: int|
                0 < i < marks.len() && palette.live && (#[trigger] marks[i]).text
                    == seq!['\u{2588}'] ==> marks[i].ink == if 5 * (marks[i].x - area.origin) >= 4
                    * area.width {
                    palette.hot
                } else {
                    palette.warm
                }
        }),
{
    let marks = drawn(band, area, palette, Style::Vu, bottom);
    let x = area.origin + column;
    let row = area.top + area.rows as int / 2;
    let filled = vstd::math::min(band.average as int, area.width as int);
    let marker = vstd::math::min(band.loudest as int, area.width - 1);
    let track = seq![
        canvas::mark(
            area.origin as int,
            row,
            text::repeated('\u{2508}', area.width as nat),
            palette.quiet,
        ),
    ];
    let blocks = meter_marks(filled as nat, row, area, palette);
    let needle = if marker > filled {
        seq![dot(area.origin + marker, row, '\u{2503}', marker_ink(palette))]
    } else {
        Seq::empty()
    };
    lemma_meter_shape(filled as nat, row, area, palette);
    assert(marks == track + blocks + needle);
    assert(marks[0] == track[0]);
    lemma_printed_join(track, blocks, x, row, '\u{2588}');
    lemma_printed_join(track + blocks, needle, x, row, '\u{2588}');
    lemma_printed_join(track, blocks, x, row, '\u{2503}');
    lemma_printed_join(track + blocks, needle, x, row, '\u{2503}');
    lemma_one_dot(
        area.origin + marker,
        row,
        '\u{2503}',
        marker_ink(palette),
        x,
        row,
        '\u{2588}',
    );
    lemma_one_dot(
        area.origin + marker,
        row,
        '\u{2503}',
        marker_ink(palette),
        x,
        row,
        '\u{2503}',
    );
    assert(seq!['\u{2588}'][0] == '\u{2588}' && seq!['\u{2503}'][0] == '\u{2503}');
    assert(seq!['\u{2588}'].len() == 1 && seq!['\u{2503}'].len() == 1);
    if column < filled {
        assert(blocks[column].x == x);
        assert(printed_at(blocks, x, row, '\u{2588}'));
    }
    if area.width > 1 {
        assert(!printed_at(track, x, row, '\u{2588}'));
        assert(!printed_at(track, x, row, '\u{2503}'));
    }
    assert(!printed_at(blocks, x, row, '\u{2503}'));
    assert forall|i: int| 0 <= i < marks.len() implies (#[trigger] marks[i]).y == row by {
        if 1 <= i < 1 + blocks.len() {
            assert(marks[i] == blocks[i - 1]);
        }
    }
    assert forall|i: int|
        0 < i < marks.len() && palette.live && (#[trigger] marks[i]).text
            == seq!['\u{2588}'] implies marks[i].ink == if 5 * (marks[i].x - area.origin) >= 4
        * area.width {
        palette.hot
    } else {
        palette.warm
    } by {
        if i < 1 + blocks.len() {
            assert(marks[i] == blocks[i - 1]);
        } else {
            assert(marks[i] == needle[0]);
            assert(marks[i].text[0] == '\u{2503}');
        }
    }
}

/// Every style but the bars answers to one name, and anything else means bars.
pub proof fn law_a_style_answers_to_its_name(name: Seq<char>)
    ensures
        style_named(name) == Style::Mirror <==> name == seq!['m', 'i', 'r', 'r', 'o', 'r'],
        style_named(name) == Style::Wave <==> name == seq!['w', 'a', 'v', 'e'],
        style_named(name) == Style::Vu <==> name == seq!['v', 'u'],
{
    reveal_strlit("mirror");
    reveal_strlit("wave");
    reveal_strlit("vu");
    assert("mirror"@ =~= seq!['m', 'i', 'r', 'r', 'o', 'r']);
    assert("wave"@ =~= seq!['w', 'a', 'v', 'e']);
    assert("vu"@ =~= seq!['v', 'u']);
}

} // verus!
