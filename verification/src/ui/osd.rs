//! The overlay that says what a keypress just did, and what went wrong.
//!
//! Volume and seek are the two commands whose effect is a number in the corner of a two
//! line statusbar, which is no use at all from across the room. A key that changes one of
//! them raises a panel in the middle of the screen with the new value drawn big, and the
//! panel fades out a second later.
//!
//! The same panel carries notices. Without one, a failure has nowhere to go but the log, so
//! an ordinary run would fail silently: a search that returned nothing, a library that
//! could not be reached, a token that expired. Anything the user would otherwise be left
//! guessing about goes through [`notify`].

use vstd::prelude::*;

use crate::canvas;
use crate::canvas::{Align, Effect, Ink, Sheet, Vec2};
#[allow(unused_imports)]
use crate::canvas::Mark;
use crate::text;
use crate::ui::controls;
use crate::ui::meters;

verus! {

/// How long the panel stays up, including the fade at the end of it, in nanoseconds.
pub const LIFETIME: u128 = 1_400_000_000;
/// The last four tenths of the lifetime are spent fading out; where there is nothing to
/// fade towards, the panel is dimmed for the last half of that.
pub const DIM_AFTER: u128 = 1_120_000_000;
/// Redraws asked for while the panel is up, so it fades and clears itself even when nothing
/// else on screen is moving.
pub const FRAMES: u32 = 18;
/// The panel's inner width, in cells. Wide enough for a bar worth looking at, narrow enough
/// for a small terminal.
pub const WIDTH: usize = 34;

/// What the panel is showing.
pub enum Flash {
    /// A volume, 0 to 100.
    Volume(u16),
    /// A position in a track, both in milliseconds.
    Seek { elapsed: u128, duration: u32 },
    /// Something the user needs told, which has no bar under it.
    Notice(String),
}

/// A [`Flash`] as the contracts speak of it.
#[verifier::ext_equal]
pub enum FlashModel {
    Volume(nat),
    Seek { elapsed: nat, duration: nat },
    Notice(Seq<char>),
}

impl View for Flash {
    type V = FlashModel;

    open spec fn view(&self) -> FlashModel {
        match self {
            Flash::Volume(percent) => FlashModel::Volume(*percent as nat),
            Flash::Seek { elapsed, duration } => FlashModel::Seek {
                elapsed: *elapsed as nat,
                duration: *duration as nat,
            },
            Flash::Notice(message) => FlashModel::Notice(message@),
        }
    }
}

/// What the panel says.
pub open spec fn label_of(flash: FlashModel) -> Seq<char> {
    match flash {
        FlashModel::Notice(message) => message,
        FlashModel::Volume(percent) => "volume "@ + text::digits(percent) + "%"@,
        FlashModel::Seek { elapsed, duration } => text::clock_face(
            if elapsed <= u32::MAX {
                elapsed
            } else {
                u32::MAX as nat
            },
        ) + " / "@ + text::clock_face(duration),
    }
}

/// How full the bar is: so many parts of so many.
pub open spec fn fraction_of(flash: FlashModel) -> (nat, nat) {
    match flash {
        FlashModel::Notice(_) => (0, 1),
        FlashModel::Volume(percent) => (
            if percent <= 100 {
                percent
            } else {
                100
            },
            100,
        ),
        FlashModel::Seek { elapsed, duration } => if duration == 0 {
            (0, 1)
        } else if elapsed <= duration {
            (elapsed, duration)
        } else {
            (duration, duration)
        },
    }
}

impl Flash {
    /// What the panel says.
    pub fn label(&self) -> (label: String)
        ensures
            label@ == label_of(self@),
    {
        match self {
            Flash::Notice(message) => message.clone(),
            Flash::Volume(percent) => {
                let mut label = "volume ".to_owned();
                label.append(&text::decimal(*percent as u128));
                label.append("%");
                label
            },
            Flash::Seek { elapsed, duration } => {
                let shown: u32 = if *elapsed <= u32::MAX as u128 {
                    *elapsed as u32
                } else {
                    u32::MAX
                };
                let mut label = text::ms_to_hms(shown);
                label.append(" / ");
                label.append(&text::ms_to_hms(*duration));
                label
            },
        }
    }

    /// How full the bar is drawn: so many parts of so many.
    pub fn fraction(&self) -> (fraction: (u32, u32))
        ensures
            fraction.0 as nat == fraction_of(self@).0,
            fraction.1 as nat == fraction_of(self@).1,
            fraction.0 <= fraction.1,
            fraction.1 > 0,
            *self matches Flash::Seek { elapsed, duration } ==> duration > 0 ==> fraction.0
                * duration == vstd::math::min(elapsed as int, duration as int) * fraction.1,
            *self matches Flash::Volume(percent) ==> fraction.0 * 100 == vstd::math::min(
                percent as int,
                100,
            ) * fraction.1,
    {
        proof {
            law_the_bar_is_full_at_the_end_of_the_range(self@);
        }
        match self {
            Flash::Notice(_) => (0, 1),
            Flash::Volume(percent) => (
                if *percent <= 100 {
                    *percent as u32
                } else {
                    100
                },
                100,
            ),
            Flash::Seek { elapsed, duration } => {
                if *duration == 0 {
                    (0, 1)
                } else if *elapsed <= *duration as u128 {
                    (*elapsed as u32, *duration)
                } else {
                    (*duration, *duration)
                }
            },
        }
    }

    /// Whether this is a notice.
    fn is_notice(&self) -> (notice: bool)
        ensures
            notice == (self@ is Notice),
    {
        match self {
            Flash::Notice(_) => true,
            _ => false,
        }
    }
}

/// The panel, and whether it can reach the screen.
pub struct Panel {
    /// What was raised last, and when.
    pub raised: Option<(Flash, u128)>,
    /// Whether there is an event loop to wake when a notice is raised.
    pub attached: bool,
}

/// What was raised last, as the contracts speak of it.
pub open spec fn raised_model(raised: Option<(Flash, u128)>) -> Option<(FlashModel, u128)> {
    match raised {
        Some((flash, since)) => Some((flash@, since)),
        None => None,
    }
}

/// What keeps the frames coming once the panel is up.
#[derive(Clone, Copy, PartialEq, Eq, Structural, Debug)]
pub enum Ticker {
    /// One is running already: a single frame is enough.
    Running,
    /// One has to be started: [`FRAMES`] times in the lifetime of a panel it asks [`tick`]
    /// what to do, until that was the last frame.
    Start,
}

/// What a ticker does next.
#[derive(Clone, Copy, PartialEq, Eq, Structural, Debug)]
pub enum Tick {
    /// The panel is up: ask for a frame, and go on.
    Frame,
    /// The panel has come down: ask for one last frame to clear it off the screen, and stop.
    Last,
}

/// Whether the panel is up at `now`.
pub open spec fn is_up(raised: Option<(FlashModel, u128)>, now: u128) -> bool {
    raised matches Some((_, since)) && now - since < LIFETIME
}

impl Panel {
    /// A panel that shows nothing and cannot reach the screen yet.
    pub fn new() -> (panel: Self)
        ensures
            panel.raised is None,
            !panel.attached,
    {
        Panel { raised: None, attached: false }
    }
}

/// Let [`notify`] reach the screen. Called once, as the interface comes up.
pub fn attach(panel: &mut Panel)
    ensures
        final(panel).attached,
        final(panel).raised == old(panel).raised,
{
    panel.attached = true;
}

/// Tell the user something, on the panel, for as long as a flash lasts.
///
/// Silently does nothing before the interface exists, which is the right thing: startup
/// failures are reported on stdout, where they can still be read.
pub fn notify(panel: &mut Panel, message: String, now: u128) -> (ticker: Option<Ticker>)
    ensures
        final(panel).attached == old(panel).attached,
        !old(panel).attached ==> ticker is None && final(panel).raised == old(panel).raised,
        old(panel).attached ==> ticker == Some(ticker_for(raised_model(old(panel).raised), now))
            && raised_model(final(panel).raised) == Some((FlashModel::Notice(message@), now)),
{
    if !panel.attached {
        return None;
    }
    Some(flash(panel, Flash::Notice(message), now))
}

/// What a flash that is raised at `now` needs to keep the frames coming.
pub open spec fn ticker_for(raised: Option<(FlashModel, u128)>, now: u128) -> Ticker {
    if is_up(raised, now) {
        Ticker::Running
    } else {
        Ticker::Start
    }
}

/// Raise the panel. Holding a volume key repeats the command; one ticker is enough for all
/// of them, since each keypress pushes the deadline out again.
pub fn flash(panel: &mut Panel, shown: Flash, now: u128) -> (ticker: Ticker)
    ensures
        final(panel).attached == old(panel).attached,
        raised_model(final(panel).raised) == Some((shown@, now)),
        ticker == ticker_for(raised_model(old(panel).raised), now),
        forall|later: u128|
            #[trigger] is_up(raised_model(final(panel).raised), later) <==> later < now + 1400
                * 1_000_000,
{
    let already_up = match &panel.raised {
        Some((_, since)) => now.saturating_sub(*since) < LIFETIME,
        None => false,
    };
    panel.raised = Some((shown, now));
    if already_up {
        Ticker::Running
    } else {
        Ticker::Start
    }
}

/// Take the panel down once what it shows has had its whole lifetime. Whatever was raised
/// meanwhile has pushed that moment out.
pub fn tick(panel: &mut Panel, now: u128) -> (tick: Tick)
    ensures
        final(panel).attached == old(panel).attached,
        is_up(raised_model(old(panel).raised), now) ==> final(panel).raised == old(panel).raised
            && tick == Tick::Frame,
        !is_up(raised_model(old(panel).raised), now) ==> final(panel).raised is None && tick
            == Tick::Last,
{
    let up = match &panel.raised {
        Some((_, since)) => now.saturating_sub(*since) < LIFETIME,
        None => false,
    };
    if up {
        return Tick::Frame;
    }
    panel.raised = None;
    Tick::Last
}

/// The inner width of the panel on a screen of `columns` columns. A notice is as wide as
/// its message needs, up to what the terminal allows; the bars keep their fixed width so a
/// volume panel doesn't change size as it counts.
pub open spec fn panel_width(flash: FlashModel, columns: usize) -> int {
    let room = if columns >= 4 {
        columns - 4
    } else {
        0
    };
    let wanted = if flash is Notice {
        vstd::math::max(WIDTH as int, text::text_width(label_of(flash)) + 2)
    } else {
        WIDTH as int
    };
    vstd::math::min(wanted, room)
}

/// Whether a screen has room for the panel.
pub open spec fn panel_fits(flash: FlashModel, size: Vec2) -> bool {
    panel_width(flash, size.x) >= 12 && size.y >= 7
}

/// The first column inside the panel.
pub open spec fn panel_left(flash: FlashModel, size: Vec2) -> int {
    (size.x - panel_width(flash, size.x)) / 2
}

/// The first row inside the panel.
pub open spec fn panel_top(size: Vec2) -> int {
    size.y / 2 - 2
}

/// The top or the bottom of the frame of the panel.
pub open spec fn lid(first: char, width: int, last: char) -> Seq<char> {
    seq![first] + text::repeated('\u{2500}', width as nat) + seq![last]
}

/// The first `rows` rows between the top and the bottom of the panel.
pub open spec fn body_marks(
    left: int,
    top: int,
    width: int,
    effect: Effect,
    rows: nat,
) -> Seq<Mark>
    decreases rows,
{
    if rows == 0 {
        Seq::empty()
    } else {
        let row = top + rows - 1;
        body_marks(left, top, width, effect, (rows - 1) as nat) + seq![
            canvas::styled_mark(left - 1, row, "\u{2502}"@, Ink::PanelBorder, effect),
            canvas::styled_mark(left + width, row, "\u{2502}"@, Ink::PanelBorder, effect),
            canvas::mark(left, row, text::repeated(' ', width as nat), Ink::PanelBlank),
        ]
    }
}

/// A box, so the panel reads as something on top of the screen rather than as text that has
/// landed in the middle of it.
pub open spec fn box_marks(left: int, top: int, width: int, effect: Effect) -> Seq<Mark> {
    seq![
        canvas::styled_mark(
            left - 1,
            top - 1,
            lid('\u{256d}', width, '\u{256e}'),
            Ink::PanelBorder,
            effect,
        ),
    ] + body_marks(left, top, width, effect, 3) + seq![
        canvas::styled_mark(
            left - 1,
            top + 3,
            lid('\u{2570}', width, '\u{256f}'),
            Ink::PanelBorder,
            effect,
        ),
    ]
}

/// The cells of the bar that are filled.
pub open spec fn filled_cells(flash: FlashModel, width: int) -> nat {
    let (part, whole) = fraction_of(flash);
    controls::nearest_share(width as nat, part, whole)
}

/// What is written inside the panel.
pub open spec fn inside_marks(
    flash: FlashModel,
    left: int,
    top: int,
    width: int,
    effect: Effect,
) -> Seq<Mark> {
    let label = meters::truncated(label_of(flash), width as nat);
    let x = left + canvas::offset_of(Align::Center, text::text_width(label) as int, width);
    let filled = filled_cells(flash, width);
    if flash is Notice {
        // No bar under it, so the message sits in the middle of the panel.
        seq![canvas::styled_mark(x, top + 1, label, Ink::PanelText, effect)]
    } else {
        seq![
            canvas::styled_mark(x, top, label, Ink::PanelText, effect),
            canvas::styled_mark(
                left,
                top + 2,
                text::repeated('\u{2504}', width as nat),
                Ink::PanelText,
                effect,
            ),
        ] + (if filled > 0 {
            seq![
                canvas::styled_mark(
                    left,
                    top + 2,
                    text::repeated('\u{2501}', filled),
                    Ink::PanelBorder,
                    effect,
                ),
            ]
        } else {
            Seq::empty()
        })
    }
}

/// The effect that the panel is printed with when it is `age` old. A theme with no
/// background colour cannot be faded towards, so on those the panel dims for the last
/// stretch instead of dissolving.
pub open spec fn panel_effect(age: int, fades: bool) -> Effect {
    if !fades && age > DIM_AFTER {
        Effect::Dim
    } else {
        Effect::Simple
    }
}

/// What the panel puts on the screen at `now`.
pub open spec fn panel_marks(
    raised: Option<(FlashModel, u128)>,
    size: Vec2,
    now: u128,
    fades: bool,
) -> Seq<Mark> {
    match raised {
        Some((flash, since)) if is_up(raised, now) && panel_fits(flash, size) => {
            let left = panel_left(flash, size);
            let top = panel_top(size);
            let width = panel_width(flash, size.x);
            let effect = panel_effect(now - since, fades);
            box_marks(left, top, width, effect) + inside_marks(flash, left, top, width, effect)
        },
        _ => Seq::empty(),
    }
}

/// The top or the bottom of the frame of the panel.
fn lid_text(first: char, width: usize, last: char) -> (line: String)
    ensures
        line@ == lid(first, width as int, last),
{
    let mut line = String::new();
    line.push(first);
    line.append(&text::repeat('\u{2500}', width));
    line.push(last);
    assert(line@ =~= lid(first, width as int, last));
    line
}

/// Draw the box of the panel.
fn draw_box(sheet: &mut Sheet, left: usize, top: usize, width: usize, effect: Effect)
    requires
        left >= 1,
        top >= 1,
        left + width <= usize::MAX,
        top + 3 <= usize::MAX,
    ensures
        final(sheet)@ == old(sheet)@ + box_marks(left as int, top as int, width as int, effect),
{
    sheet.print_styled(
        left - 1,
        top - 1,
        &lid_text('\u{256d}', width, '\u{256e}'),
        Ink::PanelBorder,
        effect,
    );
    let blanks = text::repeat(' ', width);
    let ghost before = sheet@;
    for row in 0..3usize
        invariant
            left >= 1,
            left + width <= usize::MAX,
            top + 3 <= usize::MAX,
            blanks@ == text::repeated(' ', width as nat),
            sheet@ =~= before + body_marks(
                left as int,
                top as int,
                width as int,
                effect,
                row as nat,
            ),
    {
        sheet.print_styled(left - 1, top + row, "\u{2502}", Ink::PanelBorder, effect);
        sheet.print_styled(left + width, top + row, "\u{2502}", Ink::PanelBorder, effect);
        sheet.print(left, top + row, &blanks, Ink::PanelBlank);
    }
    sheet.print_styled(
        left - 1,
        top + 3,
        &lid_text('\u{2570}', width, '\u{256f}'),
        Ink::PanelBorder,
        effect,
    );
    assert(sheet@ =~= old(sheet)@ + box_marks(left as int, top as int, width as int, effect));
}

/// Write what is inside the panel.
fn draw_inside(
    sheet: &mut Sheet,
    flash: &Flash,
    left: usize,
    top: usize,
    width: usize,
    effect: Effect,
)
    requires
        left + width <= usize::MAX,
        top + 2 <= usize::MAX,
        flash@ is Notice || width <= WIDTH,
    ensures
        final(sheet)@ == old(sheet)@ + inside_marks(
            flash@,
            left as int,
            top as int,
            width as int,
            effect,
        ),
{
    // A message too wide even for the whole terminal is cut rather than wrapped, so the
    // panel keeps its shape.
    let label = meters::truncate(&flash.label(), width);
    let x: usize = left + canvas::get_offset(Align::Center, text::width(&label), width);
    if flash.is_notice() {
        sheet.print_styled(x, top + 1, &label, Ink::PanelText, effect);
    } else {
        let (part, whole) = flash.fraction();
        let filled: u32 = controls::share(width as u32, part as usize, whole as usize);
        sheet.print_styled(x, top, &label, Ink::PanelText, effect);
        sheet.print_styled(
            left,
            top + 2,
            &text::repeat('\u{2504}', width),
            Ink::PanelText,
            effect,
        );
        if filled > 0 {
            sheet.print_styled(
                left,
                top + 2,
                &text::repeat('\u{2501}', filled as usize),
                Ink::PanelBorder,
                effect,
            );
        }
    }
    assert(sheet@ =~= old(sheet)@ + inside_marks(
        flash@,
        left as int,
        top as int,
        width as int,
        effect,
    ));
}

/// The inner width of the panel on a screen of `columns` columns.
fn width_of(flash: &Flash, columns: usize) -> (width: usize)
    ensures
        width == panel_width(flash@, columns),
{
    let room: usize = columns.saturating_sub(4);
    let needed: usize = if flash.is_notice() {
        let message = text::width(&flash.label());
        if message >= room {
            return room;
        }
        message + 2
    } else {
        0
    };
    let wanted: usize = if needed > WIDTH {
        needed
    } else {
        WIDTH
    };
    if wanted < room {
        wanted
    } else {
        room
    }
}

/// Draw the panel on a screen of `size`, if one is up. `fades` says whether the background
/// is a colour that the panel can fade into.
pub fn draw(panel: &Panel, size: Vec2, now: u128, fades: bool) -> (sheet: Sheet)
    ensures
        sheet@ == panel_marks(raised_model(panel.raised), size, now, fades),
{
    let mut sheet = Sheet::new();
    if let Some((flash, since)) = &panel.raised {
        let age: u128 = now.saturating_sub(*since);
        if age >= LIFETIME {
            return sheet;
        }
        let width = width_of(flash, size.x);
        if width < 12 || size.y < 7 {
            return sheet;
        }
        let effect = if !fades && age > DIM_AFTER {
            Effect::Dim
        } else {
            Effect::Simple
        };
        let left: usize = (size.x - width) / 2;
        let top: usize = size.y / 2 - 2;
        draw_box(&mut sheet, left, top, width, effect);
        draw_inside(&mut sheet, flash, left, top, width, effect);
        assert(sheet@ =~= panel_marks(raised_model(panel.raised), size, now, fades));
    }
    sheet
}

/// The panel with its frame stays on the screen.
pub proof fn law_the_panel_stays_on_the_screen(flash: FlashModel, size: Vec2)
    requires
        panel_fits(flash, size),
    ensures
        panel_left(flash, size) - 1 >= 0,
        panel_left(flash, size) + panel_width(flash, size.x) < size.x,
        panel_top(size) - 1 >= 0,
        panel_top(size) + 3 < size.y,
{
}

/// The panel goes away by itself: past its lifetime nothing of it is drawn.
pub proof fn law_the_panel_goes_away(
    flash: FlashModel,
    since: u128,
    size: Vec2,
    now: u128,
    fades: bool,
)
    requires
        now >= since + LIFETIME,
    ensures
        panel_marks(Some((flash, since)), size, now, fades) == Seq::<Mark>::empty(),
{
}

/// Each flash pushes the deadline out: whatever was up before, what is raised at `now` is up
/// for its whole lifetime and no longer, and one ticker after the first is enough for it,
/// since that one stops only once nothing is up.
pub proof fn law_each_flash_pushes_the_deadline_out(
    before: Option<(FlashModel, u128)>,
    flash: FlashModel,
    now: u128,
    later: u128,
)
    requires
        now <= later,
    ensures
        is_up(Some((flash, now)), later) <==> later < now + LIFETIME,
        ticker_for(before, now) == Ticker::Running ==> is_up(before, now),
        ticker_for(Some((flash, now)), later) == Ticker::Running <==> later < now + LIFETIME,
{
}

/// The bar is never drawn wider than the panel.
pub proof fn law_the_bar_stays_inside(flash: FlashModel, width: int)
    requires
        width >= 0,
    ensures
        filled_cells(flash, width) <= width,
{
    let (part, whole) = fraction_of(flash);
    controls::law_clicks_keep_their_order(width as nat, part, whole, whole);
    controls::law_the_ends_of_a_meter_are_the_ends_of_its_range(width as nat, whole);
}

/// What the bar shows is how much of its range has been reached: the played part of the
/// length, as far as there is a length, or the volume out of a hundred. A notice fills
/// nothing.
pub proof fn law_the_bar_is_full_at_the_end_of_the_range(flash: FlashModel)
    ensures
        ({
            let (part, whole) = fraction_of(flash);
            &&& whole > 0
            &&& part <= whole
            &&& flash matches FlashModel::Seek { elapsed, duration } ==> (duration > 0 ==> part
                * duration == vstd::math::min(elapsed as int, duration as int) * whole)
            &&& flash matches FlashModel::Seek { elapsed, duration } ==> (duration == 0 ==> part
                == 0)
            &&& flash matches FlashModel::Volume(percent) ==> part * 100 == vstd::math::min(
                percent as int,
                100,
            ) * whole
            &&& flash is Notice ==> part == 0
        }),
{
    let (part, whole) = fraction_of(flash);
    if let FlashModel::Seek { elapsed, duration } = flash {
        if duration > 0 {
            let reached = vstd::math::min(elapsed as int, duration as int);
            assert(part == reached && whole == duration);
            assert(part * duration == reached * whole) by (nonlinear_arith)
                requires
                    part == reached,
                    whole == duration,
            ;
        }
    }
}

/// The bar of a seek is empty at the start of an item, full at its end and past it, never
/// gets shorter as the item plays on, and is at every moment within half a cell of what has
/// been played.
pub proof fn law_a_seek_fills_the_bar_from_the_start(
    elapsed: nat,
    later: nat,
    duration: nat,
    width: int,
)
    requires
        duration > 0,
        width >= 0,
        elapsed <= later,
    ensures
        filled_cells(FlashModel::Seek { elapsed: 0, duration }, width) == 0,
        elapsed >= duration ==> filled_cells(FlashModel::Seek { elapsed, duration }, width)
            == width,
        filled_cells(FlashModel::Seek { elapsed, duration }, width) <= filled_cells(
            FlashModel::Seek { elapsed: later, duration },
            width,
        ),
        elapsed <= duration ==> -duration <= 2 * (filled_cells(
            FlashModel::Seek { elapsed, duration },
            width,
        ) * duration - width * elapsed) <= duration,
{
    let cells = width as nat;
    let (part, whole) = fraction_of(FlashModel::Seek { elapsed, duration });
    let (more, _) = fraction_of(FlashModel::Seek { elapsed: later, duration });
    controls::law_the_ends_of_a_meter_are_the_ends_of_its_range(cells, duration);
    controls::law_clicks_keep_their_order(cells, part, more, duration);
    controls::law_a_share_is_the_nearest(cells, part, duration);
}

/// The bar of a volume is empty at nothing, full at a hundred percent, never shorter for a
/// louder one, and within half a cell of the percentage.
pub proof fn law_a_volume_fills_the_bar_from_nothing(percent: nat, louder: nat, width: int)
    requires
        width >= 0,
        percent <= louder,
    ensures
        filled_cells(FlashModel::Volume(0), width) == 0,
        percent >= 100 ==> filled_cells(FlashModel::Volume(percent), width) == width,
        filled_cells(FlashModel::Volume(percent), width) <= filled_cells(
            FlashModel::Volume(louder),
            width,
        ),
        percent <= 100 ==> -100 <= 2 * (filled_cells(FlashModel::Volume(percent), width) * 100
            - width * percent) <= 100,
{
    let cells = width as nat;
    let (part, whole) = fraction_of(FlashModel::Volume(percent));
    let (more, _) = fraction_of(FlashModel::Volume(louder));
    controls::law_the_ends_of_a_meter_are_the_ends_of_its_range(cells, 100);
    controls::law_clicks_keep_their_order(cells, part, more, 100);
    controls::law_a_share_is_the_nearest(cells, part, 100);
}

/// A seek says where the item is before it says how long it is, a volume says its
/// percentage, and a notice says its message and nothing else.
pub proof fn law_the_label_says_what_was_done(flash: FlashModel)
    ensures
        flash matches FlashModel::Seek { elapsed, duration } ==> elapsed <= u32::MAX ==> {
            let label = label_of(flash);
            let (at, long) = (text::clock_face(elapsed), text::clock_face(duration));
            &&& label.len() == at.len() + 3 + long.len()
            &&& label.take(at.len() as int) == at
            &&& label.skip(at.len() as int + 3) == long
            &&& label[at.len() as int + 1] == '/'
        },
        flash matches FlashModel::Volume(percent) ==> {
            let label = label_of(flash);
            let number = text::digits(percent);
            &&& label.take(6) == seq!['v', 'o', 'l', 'u', 'm', 'e']
            &&& label.len() == 7 + number.len() + 1
            &&& label.subrange(7, 7 + number.len() as int) == number
            &&& label.last() == '%'
        },
        flash matches FlashModel::Notice(message) ==> label_of(flash) == message,
{
    reveal_strlit(" / ");
    reveal_strlit("volume ");
    reveal_strlit("%");
    let label = label_of(flash);
    match flash {
        FlashModel::Seek { elapsed, duration } => {
            let (at, long) = (text::clock_face(elapsed), text::clock_face(duration));
            if elapsed <= u32::MAX {
                assert(label.take(at.len() as int) =~= at);
                assert(label.skip(at.len() as int + 3) =~= long);
            }
        },
        FlashModel::Volume(percent) => {
            assert(label.take(6) =~= seq!['v', 'o', 'l', 'u', 'm', 'e']);
            assert(label.subrange(7, 7 + text::digits(percent).len() as int) =~= text::digits(percent));
        },
        FlashModel::Notice(_) => {},
    }
}

/// What a panel that is up puts on the screen: its label, in the middle of the three rows
/// for a notice and in the first of them for the rest, with the bar below that in the third:
/// a track as wide as the panel, and over it as many cells as are filled.
pub proof fn law_the_panel_shows_label_and_bar(
    flash: FlashModel,
    left: int,
    top: int,
    width: int,
    effect: Effect,
)
    requires
        width >= 0,
    ensures
        ({
            let marks = inside_marks(flash, left, top, width, effect);
            let filled = filled_cells(flash, width);
            &&& text::text_width(label_of(flash)) <= width ==> marks[0].text == label_of(flash)
            &&& marks[0].ink == Ink::PanelText
            &&& flash is Notice ==> marks.len() == 1 && marks[0].y == top + 1
            &&& !(flash is Notice) ==> {
                &&& marks.len() == if filled == 0 {
                    2int
                } else {
                    3int
                }
                &&& marks[0].y == top
                &&& marks[1].x == left && marks[1].y == top + 2 && marks[1].text.len() == width
                    && marks[1].ink == Ink::PanelText && (width > 0 ==> marks[1].text[0]
                    == '\u{2504}')
                &&& filled > 0 ==> marks[2].x == left && marks[2].y == top + 2
                    && marks[2].text.len() == filled && marks[2].ink == Ink::PanelBorder
                    && marks[2].text[0] == '\u{2501}'
            }
            &&& forall|i: int|
                0 <= i < marks.len() ==> (#[trigger] marks[i]).effect == effect && top
                    <= marks[i].y <= top + 2
        }),
{
}

/// The panel sits in the middle of the screen: its margins on either side differ by one
/// column at most, and there are one or two rows more below its frame than above it.
pub proof fn law_the_panel_is_centred(flash: FlashModel, size: Vec2)
    requires
        panel_fits(flash, size),
    ensures
        ({
            let before = panel_left(flash, size);
            let after = size.x - before - panel_width(flash, size.x);
            0 <= after - before <= 1
        }),
        ({
            let above = panel_top(size) - 1;
            let below = size.y - above - 5;
            1 <= below - above <= 2
        }),
{
}

/// The panel only dims where it cannot fade, and then for the last fifth of its life.
pub proof fn law_the_panel_dims_at_the_end(age: int, fades: bool)
    ensures
        panel_effect(age, fades) == Effect::Dim <==> !fades && 5 * age > 4 * LIFETIME,
        panel_effect(age, fades) != Effect::Dim ==> panel_effect(age, fades) == Effect::Simple,
        LIFETIME == 1400 * 1_000_000,
{
}

/// A panel keeps two columns to either side of the screen. Within that a bar is 34 columns
/// wide, and a notice as wide as its message and a column on either side of it, but no
/// narrower than a bar.
pub proof fn law_a_panel_is_as_wide_as_it_needs(flash: FlashModel, columns: usize)
    requires
        columns >= 4,
    ensures
        ({
            let width = panel_width(flash, columns);
            let message = text::text_width(label_of(flash)) as int;
            &&& width + 4 <= columns
            &&& !(flash is Notice) && columns >= 38 ==> width == 34
            &&& flash is Notice && columns >= 38 ==> width >= 34
            &&& flash is Notice && columns >= message + 6 && message >= 32 ==> width == message + 2
            &&& flash is Notice && columns >= 38 && message < 32 ==> width == 34
            &&& columns < 38 ==> width == columns - 4
        }),
{
}

/// The panel is framed: a lid one row above its inside and one below it, each two columns
/// wider than the inside, and walls on both sides of its three rows, which are blank but for
/// what is written on them.
pub proof fn law_the_panel_is_framed(left: int, top: int, width: int, effect: Effect, row: int)
    requires
        width >= 0,
        0 <= row < 3,
    ensures
        ({
            let marks = box_marks(left, top, width, effect);
            let (one, other, blank) = (
                marks[1 + 3 * row],
                marks[2 + 3 * row],
                marks[3 + 3 * row],
            );
            let below = marks.last();
            &&& marks.len() == 11
            &&& marks[0].x == left - 1 && marks[0].y == top - 1 && marks[0].text.len() == width + 2
            &&& below.x == left - 1 && below.y == top + 3 && below.text.len() == width + 2
            &&& one.x == left - 1 && one.y == top + row && one.text == seq!['\u{2502}']
            &&& other.x == left + width && other.y == top + row && other.text == seq!['\u{2502}']
            &&& blank.x == left && blank.y == top + row && blank.text.len() == width && (width > 0
                ==> blank.text[0] == ' ')
            &&& marks[0].text[0] == '\u{256d}' && marks[0].text.last() == '\u{256e}'
            &&& below.text[0] == '\u{2570}' && below.text.last() == '\u{256f}'
            &&& marks[0].ink == Ink::PanelBorder && below.ink == Ink::PanelBorder
            &&& one.ink == Ink::PanelBorder && other.ink == Ink::PanelBorder
            &&& blank.ink == Ink::PanelBlank
            &&& marks[0].effect == effect && below.effect == effect && one.effect == effect
                && other.effect == effect
        }),
{
    reveal_strlit("\u{2502}");
    assert("\u{2502}"@ =~= seq!['\u{2502}']);
    reveal_with_fuel(body_marks, 4);
}

/// The label of a panel is in the middle of it, where it fits.
pub proof fn law_the_label_is_centred(
    flash: FlashModel,
    left: int,
    top: int,
    width: int,
    effect: Effect,
)
    requires
        width >= 0,
        text::text_width(label_of(flash)) <= width,
    ensures
        ({
            let label = inside_marks(flash, left, top, width, effect)[0];
            let before = label.x - left;
            let behind = width - before - text::text_width(label.text);
            0 <= before && 0 <= behind - before <= 1
        }),
{
}

} // verus!
