//! What a view puts on the screen: runs of text, each at a cell, in the order in which
//! they are printed.
//!
//! A view only decides. It fills a [`Sheet`], and whoever owns the terminal prints the
//! sheet run by run; a run that reaches past the screen is cut off there.

use cursive::align::HAlign;
use vstd::prelude::*;

use crate::text;

verus! {

/// A position on the screen, or a size, in cells.
#[derive(Clone, Copy, PartialEq, Eq, Structural, Debug)]
pub struct Vec2 {
    pub x: usize,
    pub y: usize,
}

impl Vec2 {
    pub fn new(x: usize, y: usize) -> (point: Self)
        ensures
            point == (Vec2 { x, y }),
    {
        Vec2 { x, y }
    }

    /// This position counted from `origin`, or nothing where it lies before it.
    pub fn checked_sub(self, origin: Vec2) -> (inner: Option<Vec2>)
        ensures
            inner is Some <==> self.x >= origin.x && self.y >= origin.y,
            inner matches Some(inner) ==> inner.x == self.x - origin.x && inner.y == self.y
                - origin.y,
    {
        if self.x >= origin.x && self.y >= origin.y {
            Some(Vec2 { x: self.x - origin.x, y: self.y - origin.y })
        } else {
            None
        }
    }
}

/// The colours a run is printed in, by the part it plays. The theme decides what each
/// looks like.
#[derive(Clone, Copy, PartialEq, Eq, Structural, Debug)]
pub enum Ink {
    /// Whatever the view is drawn in.
    Plain,
    Primary,
    Secondary,
    Title,
    Highlight,
    /// The colour of what is playing.
    Playing,
    /// The colour of progress.
    Accent,
    /// The text of the statusbar.
    Status,
    /// The filled part of the statusbar's progress bar.
    Bar,
    /// The rest of that bar.
    BarTrack,
    /// The bar's colour on the statusbar's background.
    Equalizer,
    /// The frame and the filled bar of a panel that fades.
    PanelBorder,
    /// The inside of such a panel.
    PanelBlank,
    /// The text of such a panel.
    PanelText,
}

/// How a run is printed on top of its colours.
#[derive(Clone, Copy, PartialEq, Eq, Structural, Debug)]
pub enum Effect {
    Simple,
    Bold,
    Dim,
}

/// One run of text, as the contracts speak of it.
#[verifier::ext_equal]
pub struct Mark {
    pub x: int,
    pub y: int,
    pub text: Seq<char>,
    pub ink: Ink,
    pub effect: Effect,
}

/// A run of `text` from column `x` of row `y` on.
pub open spec fn mark(x: int, y: int, text: Seq<char>, ink: Ink) -> Mark {
    Mark { x, y, text, ink, effect: Effect::Simple }
}

/// The same, printed with an effect.
pub open spec fn styled_mark(x: int, y: int, text: Seq<char>, ink: Ink, effect: Effect) -> Mark {
    Mark { x, y, text, ink, effect }
}

/// One run of text.
pub struct Print {
    pub x: usize,
    pub y: usize,
    pub text: String,
    pub ink: Ink,
    pub effect: Effect,
}

impl View for Print {
    type V = Mark;

    open spec fn view(&self) -> Mark {
        Mark {
            x: self.x as int,
            y: self.y as int,
            text: self.text@,
            ink: self.ink,
            effect: self.effect,
        }
    }
}

/// Runs of text in the order in which they are printed.
pub struct Sheet {
    pub prints: Vec<Print>,
}

impl View for Sheet {
    type V = Seq<Mark>;

    open spec fn view(&self) -> Seq<Mark> {
        self.prints@.map_values(|print: Print| print@)
    }
}

impl Sheet {
    /// A sheet with nothing on it.
    pub fn new() -> (sheet: Self)
        ensures
            sheet@ == Seq::<Mark>::empty(),
    {
        let sheet = Sheet { prints: Vec::new() };
        assert(sheet@ =~= Seq::<Mark>::empty());
        sheet
    }

    /// Print `text` from column `x` of row `y` on.
    pub fn print(&mut self, x: usize, y: usize, text: &str, ink: Ink)
        ensures
            final(self)@ == old(self)@.push(mark(x as int, y as int, text@, ink)),
    {
        self.print_styled(x, y, text, ink, Effect::Simple);
    }

    /// Print `text` from column `x` of row `y` on, with an effect.
    pub fn print_styled(&mut self, x: usize, y: usize, text: &str, ink: Ink, effect: Effect)
        ensures
            final(self)@ == old(self)@.push(
                styled_mark(x as int, y as int, text@, ink, effect),
            ),
    {
        self.prints.push(Print { x, y, text: text.to_owned(), ink, effect });
        assert(self@ =~= old(self)@.push(styled_mark(x as int, y as int, text@, ink, effect)));
    }
}

/// The blanks that cover a view of `size`.
pub open spec fn blank_marks(size: Vec2) -> Seq<Mark> {
    Seq::new(
        size.y as nat,
        |row: int| mark(0, row, text::repeated(' ', size.x as nat), Ink::Plain),
    )
}

impl Sheet {
    /// Blank a view of `size`.
    pub fn blank(&mut self, size: Vec2)
        ensures
            final(self)@ == old(self)@ + blank_marks(size),
    {
        let blanks = text::repeat(' ', size.x);
        for row in 0..size.y
            invariant
                blanks@ == text::repeated(' ', size.x as nat),
                self@ =~= old(self)@ + blank_marks(size).take(row as int),
        {
            self.print(0, row, &blanks, Ink::Plain);
        }
        assert(blank_marks(size).take(size.y as int) =~= blank_marks(size));
    }
}

/// Where content sits in the space it is given.
#[derive(Clone, Copy, PartialEq, Eq, Structural, Debug)]
pub enum Align {
    Left,
    Center,
    Right,
}

/// How far in content of `content` cells starts when it is aligned in `container` cells.
/// Content that does not fit starts at the beginning.
pub open spec fn offset_of(align: Align, content: int, container: int) -> int {
    if container < content {
        0
    } else {
        match align {
            Align::Left => 0,
            Align::Center => (container - content) / 2,
            Align::Right => container - content,
        }
    }
}

/// Calls `cursive::align::HAlign::get_offset`. The contract says what it computes: nothing
/// where the content is the wider one, else none, half or all of the space that is left.
#[verifier::external_body]
pub(crate) fn get_offset(align: Align, content: usize, container: usize) -> (offset: usize)
    ensures
        offset == offset_of(align, content as int, container as int),
{
    let align = match align {
        Align::Left => HAlign::Left,
        Align::Center => HAlign::Center,
        Align::Right => HAlign::Right,
    };
    align.get_offset(content, container)
}

/// A horizontal slice of the screen that content is laid out inside. Keeping the slice
/// explicit means the contents of a card centre on the card, not on the terminal.
#[derive(Clone, Copy, PartialEq, Eq, Structural, Debug)]
pub struct Region {
    pub start: usize,
    pub width: usize,
}

/// The part of a region that a screen of `columns` columns shows, if it shows any.
pub open spec fn visible_part(region: Region, columns: usize) -> Option<Region> {
    if region.start >= columns || region.width == 0 {
        None
    } else if region.width <= columns - region.start {
        Some(region)
    } else {
        Some(Region { start: region.start, width: (columns - region.start) as usize })
    }
}

impl Region {
    /// The last column plus one.
    pub open spec fn end(self) -> int {
        self.start + self.width
    }

    /// The column at which `content` cells are centred in this region.
    pub open spec fn centered(self, content: int) -> int {
        self.start + offset_of(Align::Center, content, self.width as int)
    }

    pub fn new(start: usize, width: usize) -> (region: Self)
        ensures
            region == (Region { start, width }),
    {
        Region { start, width }
    }

    /// Clip to what a screen of `columns` columns can show, or `None` if nothing of the
    /// region is visible.
    pub fn visible(self, columns: usize) -> (part: Option<Self>)
        ensures
            part == visible_part(self, columns),
            part matches Some(part) ==> part.start == self.start && 0 < part.width <= self.width
                && part.end() <= columns,
    {
        if self.start >= columns || self.width == 0 {
            return None;
        }
        let room: usize = columns - self.start;
        if self.width <= room {
            Some(self)
        } else {
            Some(Region::new(self.start, room))
        }
    }

    /// The column at which `content_width` cells are centred in this region.
    pub fn center(self, content_width: usize) -> (x: usize)
        requires
            self.end() <= usize::MAX,
        ensures
            x == self.centered(content_width as int),
            content_width <= self.width ==> x + content_width <= self.end(),
    {
        self.start + get_offset(Align::Center, content_width, self.width)
    }
}

/// What is visible of a region is what lies on the screen: just its columns below the width
/// of the screen, and there is a part exactly where there are any.
pub proof fn law_what_is_visible_lies_on_the_screen(region: Region, columns: usize, column: int)
    ensures
        ({
            let inside = region.start <= column < region.start + region.width && column < columns;
            &&& visible_part(region, columns) matches Some(part) ==> (part.start <= column
                < part.start + part.width <==> inside)
            &&& visible_part(region, columns) is None ==> !inside
            &&& visible_part(region, columns) matches Some(part) ==> part.width > 0
        }),
{
}

/// Content that fits is inside its container whatever way it is aligned: at the left without
/// a space before it, at the right without one behind it, and in the middle with spaces that
/// differ by one cell at most.
pub proof fn law_aligned_content_stays_inside(align: Align, content: int, container: int)
    requires
        0 <= content <= container,
    ensures
        ({
            let before = offset_of(align, content, container);
            let behind = container - content - before;
            &&& before >= 0 && behind >= 0
            &&& align == Align::Left ==> before == 0
            &&& align == Align::Right ==> behind == 0
            &&& align == Align::Center ==> 0 <= behind - before <= 1
        }),
{
}

/// Blanking covers every cell of a view, row by row, and nothing outside it.
pub proof fn law_blanking_covers_the_view(size: Vec2, row: int, column: int)
    requires
        0 <= row < size.y,
        0 <= column < size.x,
    ensures
        blank_marks(size).len() == size.y,
        blank_marks(size)[row].x == 0,
        blank_marks(size)[row].y == row,
        blank_marks(size)[row].text.len() == size.x,
        blank_marks(size)[row].text[column] == ' ',
{
}

} // verus!
