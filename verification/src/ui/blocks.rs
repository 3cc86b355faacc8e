//! The stacked contents of a card, and how they make do with less room.

use vstd::prelude::*;

use crate::canvas::Ink;

verus! {

/// What a click on a given run of cells does. The card advertises these controls, so they
/// have to be usable with the mouse as well as with the keyboard.
#[derive(Clone, Copy, PartialEq, Eq, Structural, Debug)]
pub enum Control {
    /// Seek to the clicked fraction of the track.
    Seek,
    Previous,
    PlayPause,
    Next,
    Repeat,
    Shuffle,
    /// Set the volume to the clicked fraction of the meter.
    Volume,
}

/// A styled run of text, optionally wired to a [`Control`].
pub struct Segment {
    pub text: String,
    pub ink: Ink,
    pub control: Option<Control>,
}

/// A [`Segment`] as the contracts speak of it.
#[verifier::ext_equal]
pub struct SegmentModel {
    pub text: Seq<char>,
    pub ink: Ink,
    pub control: Option<Control>,
}

impl View for Segment {
    type V = SegmentModel;

    open spec fn view(&self) -> SegmentModel {
        SegmentModel { text: self.text@, ink: self.ink, control: self.control }
    }
}

/// A run of text that a click passes over.
pub open spec fn inert(text: Seq<char>, ink: Ink) -> SegmentModel {
    SegmentModel { text, ink, control: None }
}

/// A run of text that a click works.
pub open spec fn wired(text: Seq<char>, ink: Ink, control: Control) -> SegmentModel {
    SegmentModel { text, ink, control: Some(control) }
}

impl Segment {
    /// A run of text that a click passes over.
    pub fn new(text: String, ink: Ink) -> (segment: Self)
        ensures
            segment@ == inert(text@, ink),
    {
        Segment { text, ink, control: None }
    }

    /// A run of text that a click works.
    pub fn button(text: String, ink: Ink, control: Control) -> (segment: Self)
        ensures
            segment@ == wired(text@, ink, control),
    {
        Segment { text, ink, control: Some(control) }
    }
}

/// Runs of text that make up one line.
pub struct Segments {
    pub list: Vec<Segment>,
}

impl View for Segments {
    type V = Seq<SegmentModel>;

    open spec fn view(&self) -> Seq<SegmentModel> {
        self.list@.map_values(|segment: Segment| segment@)
    }
}

impl Segments {
    pub fn new() -> (segments: Self)
        ensures
            segments@ == Seq::<SegmentModel>::empty(),
    {
        let segments = Segments { list: Vec::new() };
        assert(segments@ =~= Seq::<SegmentModel>::empty());
        segments
    }

    /// Add a run at the end of the line.
    pub fn push(&mut self, segment: Segment)
        ensures
            final(self)@ == old(self)@.push(segment@),
    {
        self.list.push(segment);
        assert(self@ =~= old(self)@.push(segment@));
    }
}

/// What a row-group shows.
pub enum BlockKind {
    Blank,
    /// Decorative spectrum, this many rows tall. Shrinks a row at a time before it is
    /// dropped.
    Spectrum(usize),
    Line { text: String, ink: Ink, bold: bool },
    Segments(Segments),
    Progress,
    Times,
    Rule,
}

/// A [`BlockKind`] as the contracts speak of it.
#[verifier::ext_equal]
pub enum KindModel {
    Blank,
    Spectrum(usize),
    Line { text: Seq<char>, ink: Ink, bold: bool },
    Segments(Seq<SegmentModel>),
    Progress,
    Times,
    Rule,
}

impl View for BlockKind {
    type V = KindModel;

    open spec fn view(&self) -> KindModel {
        match self {
            BlockKind::Blank => KindModel::Blank,
            BlockKind::Spectrum(rows) => KindModel::Spectrum(*rows),
            BlockKind::Line { text, ink, bold } => KindModel::Line {
                text: text@,
                ink: *ink,
                bold: *bold,
            },
            BlockKind::Segments(segments) => KindModel::Segments(segments@),
            BlockKind::Progress => KindModel::Progress,
            BlockKind::Times => KindModel::Times,
            BlockKind::Rule => KindModel::Rule,
        }
    }
}

/// One row-group of the dashboard. Blocks stack top to bottom inside the card; when the
/// terminal is too short, blocks with the highest `drop_order` go first, so the layout
/// degrades by shedding decoration before it sheds information.
pub struct Block {
    pub kind: BlockKind,
    pub drop_order: u8,
}

/// A [`Block`] as the contracts speak of it.
#[verifier::ext_equal]
pub struct BlockModel {
    pub kind: KindModel,
    pub drop_order: u8,
}

impl View for Block {
    type V = BlockModel;

    open spec fn view(&self) -> BlockModel {
        BlockModel { kind: self.kind@, drop_order: self.drop_order }
    }
}

impl BlockModel {
    /// The rows the block takes.
    pub open spec fn height(self) -> nat {
        match self.kind {
            KindModel::Spectrum(rows) => rows as nat,
            _ => 1,
        }
    }
}

/// A block of `kind` that goes in turn `drop_order`.
pub open spec fn block(kind: KindModel, drop_order: u8) -> BlockModel {
    BlockModel { kind, drop_order }
}

/// An empty row, the first thing to go.
pub open spec fn blank_block() -> BlockModel {
    block(KindModel::Blank, 10)
}

/// A line of text.
pub open spec fn line_block(text: Seq<char>, ink: Ink, drop_order: u8) -> BlockModel {
    block(KindModel::Line { text, ink, bold: false }, drop_order)
}

/// The title, which is never dropped.
pub open spec fn title_block(text: Seq<char>) -> BlockModel {
    block(KindModel::Line { text, ink: Ink::Title, bold: true }, 0)
}

impl Block {
    pub fn new(kind: BlockKind, drop_order: u8) -> (made: Self)
        ensures
            made@ == block(kind@, drop_order),
    {
        Block { kind, drop_order }
    }

    /// An empty row.
    pub fn blank() -> (made: Self)
        ensures
            made@ == blank_block(),
    {
        Block::new(BlockKind::Blank, 10)
    }

    /// A line of text.
    pub fn line(text: String, ink: Ink, drop_order: u8) -> (made: Self)
        ensures
            made@ == line_block(text@, ink, drop_order),
    {
        Block::new(BlockKind::Line { text, ink, bold: false }, drop_order)
    }

    /// The title.
    pub fn title(text: String) -> (made: Self)
        ensures
            made@ == title_block(text@),
    {
        Block::new(BlockKind::Line { text, ink: Ink::Title, bold: true }, 0)
    }

    /// The rows the block takes.
    pub fn height(&self) -> (rows: usize)
        ensures
            rows == self@.height(),
    {
        match &self.kind {
            BlockKind::Spectrum(rows) => *rows,
            _ => 1,
        }
    }
}

/// Blocks from top to bottom.
pub struct Stack {
    pub list: Vec<Block>,
}

impl View for Stack {
    type V = Seq<BlockModel>;

    open spec fn view(&self) -> Seq<BlockModel> {
        self.list@.map_values(|made: Block| made@)
    }
}

impl Stack {
    pub fn new() -> (blocks: Self)
        ensures
            blocks@ == Seq::<BlockModel>::empty(),
    {
        let blocks = Stack { list: Vec::new() };
        assert(blocks@ =~= Seq::<BlockModel>::empty());
        blocks
    }

    /// Add a block at the bottom.
    pub fn push(&mut self, made: Block)
        ensures
            final(self)@ == old(self)@.push(made@),
            total_height(final(self)@) == total_height(old(self)@) + made@.height(),
    {
        self.list.push(made);
        assert(self@ =~= old(self)@.push(made@));
        assert(self@.drop_last() =~= old(self)@);
    }
}

// ---------------------------------------------------------------------------
// Heights.
// ---------------------------------------------------------------------------

/// The rows that `blocks` take together.
pub open spec fn total_height(blocks: Seq<BlockModel>) -> nat
    decreases blocks.len(),
{
    if blocks.len() == 0 {
        0
    } else {
        total_height(blocks.drop_last()) + blocks.last().height()
    }
}

/// A row more or less in one block is a row more or less in all.
proof fn lemma_height_update(blocks: Seq<BlockModel>, at: int, changed: BlockModel)
    requires
        0 <= at < blocks.len(),
    ensures
        total_height(blocks.update(at, changed)) == total_height(blocks) - blocks[at].height()
            + changed.height(),
    decreases blocks.len(),
{
    let after = blocks.update(at, changed);
    if at == blocks.len() - 1 {
        assert(after.drop_last() =~= blocks.drop_last());
    } else {
        assert(after.drop_last() =~= blocks.drop_last().update(at, changed));
        lemma_height_update(blocks.drop_last(), at, changed);
    }
}

/// Without one block, the rest is shorter by its rows.
proof fn lemma_height_remove(blocks: Seq<BlockModel>, at: int)
    requires
        0 <= at < blocks.len(),
    ensures
        total_height(blocks.remove(at)) == total_height(blocks) - blocks[at].height(),
    decreases blocks.len(),
{
    let after = blocks.remove(at);
    if at == blocks.len() - 1 {
        assert(after =~= blocks.drop_last());
    } else {
        assert(after.drop_last() =~= blocks.drop_last().remove(at));
        lemma_height_remove(blocks.drop_last(), at);
    }
}

/// The first blocks of a stack are no taller than the stack.
pub proof fn lemma_height_take(blocks: Seq<BlockModel>, count: int)
    requires
        0 <= count <= blocks.len(),
    ensures
        total_height(blocks.take(count)) <= total_height(blocks),
    decreases blocks.len(),
{
    if count == blocks.len() {
        assert(blocks.take(count) =~= blocks);
    } else {
        assert(blocks.drop_last().take(count) =~= blocks.take(count));
        lemma_height_take(blocks.drop_last(), count);
    }
}

/// The rows that `blocks` take together.
pub fn blocks_height(blocks: &Stack) -> (rows: usize)
    requires
        total_height(blocks@) <= usize::MAX,
    ensures
        rows == total_height(blocks@),
{
    let mut rows: usize = 0;
    assert(blocks@.take(0) =~= Seq::empty());
    for i in 0..blocks.list.len()
        invariant
            total_height(blocks@) <= usize::MAX,
            blocks@.len() == blocks.list@.len(),
            rows == total_height(blocks@.take(i as int)),
    {
        proof {
            lemma_height_take(blocks@, i + 1);
            assert(blocks@.take(i + 1).drop_last() =~= blocks@.take(i as int));
            assert(blocks@.take(i + 1).last() == blocks.list@[i as int]@);
        }
        rows = rows + blocks.list[i].height();
    }
    assert(blocks@.take(blocks@.len() as int) =~= blocks@);
    rows
}

// ---------------------------------------------------------------------------
// Making blocks fit.
// ---------------------------------------------------------------------------

/// Which block is given up next: the most droppable one, and of several the lowest on the
/// screen.
pub open spec fn victim(blocks: Seq<BlockModel>) -> int
    decreases blocks.len(),
{
    if blocks.len() <= 1 {
        0
    } else {
        let earlier = victim(blocks.drop_last());
        if blocks.last().drop_order >= blocks[earlier].drop_order {
            blocks.len() - 1
        } else {
            earlier
        }
    }
}

/// What giving up a row of block `at` leaves: a spectrum gets shorter while it can,
/// anything else goes.
pub open spec fn shed(blocks: Seq<BlockModel>, at: int) -> Seq<BlockModel> {
    match blocks[at].kind {
        KindModel::Spectrum(rows) if rows > 1 => blocks.update(
            at,
            block(KindModel::Spectrum((rows - 1) as usize), blocks[at].drop_order),
        ),
        _ => blocks.remove(at),
    }
}

/// Whether `blocks` still can give something up.
pub open spec fn sheddable(blocks: Seq<BlockModel>) -> bool {
    blocks.len() > 0 && blocks[victim(blocks)].drop_order > 0
}

/// `blocks` shortened until they fit `height` rows, or until all that is left must stay.
pub open spec fn fitted(blocks: Seq<BlockModel>, height: nat) -> Seq<BlockModel>
    decreases total_height(blocks) + blocks.len(),
{
    if total_height(blocks) > height && sheddable(blocks) {
        proof {
            lemma_victim(blocks);
            lemma_shed(blocks, victim(blocks));
        }
        fitted(shed(blocks, victim(blocks)), height)
    } else {
        blocks
    }
}

/// The victim is the last of the most droppable blocks.
pub proof fn lemma_victim(blocks: Seq<BlockModel>)
    requires
        blocks.len() > 0,
    ensures
        0 <= victim(blocks) < blocks.len(),
        forall|i: int|
            0 <= i < blocks.len() ==> (#[trigger] blocks[i]).drop_order
                <= blocks[victim(blocks)].drop_order,
        forall|i: int|
            victim(blocks) < i < blocks.len() ==> (#[trigger] blocks[i]).drop_order
                < blocks[victim(blocks)].drop_order,
    decreases blocks.len(),
{
    if blocks.len() > 1 {
        let earlier = blocks.drop_last();
        lemma_victim(earlier);
        assert forall|i: int| 0 <= i < blocks.len() - 1 implies #[trigger] blocks[i]
            == earlier[i] by {}
    }
}

/// Shedding makes a stack smaller.
pub proof fn lemma_shed(blocks: Seq<BlockModel>, at: int)
    requires
        0 <= at < blocks.len(),
    ensures
        total_height(shed(blocks, at)) + shed(blocks, at).len() < total_height(blocks)
            + blocks.len(),
        total_height(shed(blocks, at)) <= total_height(blocks),
{
    match blocks[at].kind {
        KindModel::Spectrum(rows) if rows > 1 => {
            lemma_height_update(
                blocks,
                at,
                block(KindModel::Spectrum((rows - 1) as usize), blocks[at].drop_order),
            );
        },
        _ => {
            lemma_height_remove(blocks, at);
        },
    }
}

/// Finds the block that is given up next.
fn find_victim(blocks: &Stack) -> (at: usize)
    requires
        blocks@.len() > 0,
    ensures
        at == victim(blocks@),
        at < blocks@.len(),
{
    let mut at: usize = 0;
    assert(blocks@.take(1).len() == 1);
    for i in 1..blocks.list.len()
        invariant
            blocks@.len() == blocks.list@.len(),
            0 < i <= blocks@.len(),
            at == victim(blocks@.take(i as int)),
            at < i,
    {
        let ghost longer = blocks@.take(i + 1);
        assert(longer.drop_last() =~= blocks@.take(i as int));
        assert(longer.last() == blocks.list@[i as int]@);
        assert(longer[at as int] == blocks.list@[at as int]@);
        if blocks.list[i].drop_order >= blocks.list[at].drop_order {
            at = i;
        }
    }
    assert(blocks@.take(blocks@.len() as int) =~= blocks@);
    at
}

/// Shrink the layout until it fits `height` rows: repeatedly take the most droppable block
/// (bottom-most one, when several tie) and either shorten it, if it is the spectrum, or
/// remove it. Blocks at drop order 0 are never removed.
pub fn fit_blocks(blocks: &mut Stack, height: usize)
    requires
        total_height(old(blocks)@) <= usize::MAX,
    ensures
        final(blocks)@ == fitted(old(blocks)@, height as nat),
        total_height(final(blocks)@) <= total_height(old(blocks)@),
{
    while blocks_height(blocks) > height
        invariant
            total_height(blocks@) <= total_height(old(blocks)@) <= usize::MAX,
            fitted(blocks@, height as nat) == fitted(old(blocks)@, height as nat),
        decreases total_height(blocks@) + blocks@.len(),
    {
        let ghost before = blocks@;
        if blocks.list.len() == 0 {
            return;
        }
        let at = find_victim(blocks);
        if blocks.list[at].drop_order == 0 {
            return;
        }
        proof {
            lemma_victim(before);
            lemma_shed(before, at as int);
        }
        let order: u8 = blocks.list[at].drop_order;
        let rows: usize = match &blocks.list[at].kind {
            BlockKind::Spectrum(rows) => *rows,
            _ => 0,
        };
        if rows > 1 {
            let shorter = Block::new(BlockKind::Spectrum(rows - 1), order);
            blocks.list.set(at, shorter);
            assert(blocks@ =~= shed(before, at as int));
        } else {
            blocks.list.remove(at);
            assert(blocks@ =~= shed(before, at as int));
        }
    }
}

// ---------------------------------------------------------------------------
// What fitting promises.
// ---------------------------------------------------------------------------

/// The blocks that go in turn `order`, from top to bottom.
pub open spec fn in_turn(blocks: Seq<BlockModel>, order: u8) -> Seq<BlockModel> {
    blocks.filter(|made: BlockModel| made.drop_order == order)
}

/// Shedding a block only touches blocks of its own turn.
proof fn lemma_shed_in_turn(blocks: Seq<BlockModel>, at: int, order: u8)
    requires
        0 <= at < blocks.len(),
        blocks[at].drop_order != order,
    ensures
        in_turn(shed(blocks, at), order) == in_turn(blocks, order),
    decreases blocks.len(),
{
    reveal(Seq::filter);
    let after = shed(blocks, at);
    if at == blocks.len() - 1 {
        match blocks[at].kind {
            KindModel::Spectrum(rows) if rows > 1 => {
                assert(after.drop_last() =~= blocks.drop_last());
            },
            _ => {
                assert(after =~= blocks.drop_last());
            },
        }
    } else {
        assert(blocks.drop_last()[at] == blocks[at]);
        assert(after.drop_last() =~= shed(blocks.drop_last(), at));
        assert(after.last() == blocks.last());
        lemma_shed_in_turn(blocks.drop_last(), at, order);
    }
}

/// Fitting adds nothing that is more droppable than what was there.
proof fn lemma_fitted_orders(blocks: Seq<BlockModel>, height: nat, bound: u8)
    requires
        forall|i: int| 0 <= i < blocks.len() ==> (#[trigger] blocks[i]).drop_order <= bound,
    ensures
        forall|i: int|
            0 <= i < fitted(blocks, height).len() ==> (#[trigger] fitted(
                blocks,
                height,
            )[i]).drop_order <= bound,
    decreases total_height(blocks) + blocks.len(),
{
    if total_height(blocks) > height && sheddable(blocks) {
        let at = victim(blocks);
        lemma_victim(blocks);
        lemma_shed(blocks, at);
        let after = shed(blocks, at);
        assert forall|i: int| 0 <= i < after.len() implies (#[trigger] after[i]).drop_order
            <= bound by {
            match blocks[at].kind {
                KindModel::Spectrum(rows) if rows > 1 => {},
                _ => {
                    assert(after[i] == if i < at {
                        blocks[i]
                    } else {
                        blocks[i + 1]
                    });
                },
            }
        }
        lemma_fitted_orders(after, height, bound);
    }
}

/// A layout that fits is left alone.
pub proof fn law_what_fits_stays(blocks: Seq<BlockModel>, height: nat)
    requires
        total_height(blocks) <= height,
    ensures
        fitted(blocks, height) == blocks,
{
}

/// A layout is made to fit, unless everything that is left of it must stay.
pub proof fn law_fitting_succeeds(blocks: Seq<BlockModel>, height: nat)
    ensures
        total_height(fitted(blocks, height)) <= height || forall|i: int|
            0 <= i < fitted(blocks, height).len() ==> (#[trigger] fitted(
                blocks,
                height,
            )[i]).drop_order == 0,
    decreases total_height(blocks) + blocks.len(),
{
    if blocks.len() > 0 {
        lemma_victim(blocks);
    }
    if total_height(blocks) > height && sheddable(blocks) {
        lemma_shed(blocks, victim(blocks));
        law_fitting_succeeds(shed(blocks, victim(blocks)), height);
    }
}

/// Decoration goes before information: while a block of a later turn is still there,
/// every block of an earlier turn is there as it was.
pub proof fn law_shed_in_order(blocks: Seq<BlockModel>, height: nat, kept: u8, order: u8)
    requires
        order < kept,
        exists|i: int|
            0 <= i < fitted(blocks, height).len() && (#[trigger] fitted(
                blocks,
                height,
            )[i]).drop_order == kept,
    ensures
        in_turn(fitted(blocks, height), order) == in_turn(blocks, order),
    decreases total_height(blocks) + blocks.len(),
{
    if total_height(blocks) > height && sheddable(blocks) {
        let at = victim(blocks);
        lemma_victim(blocks);
        lemma_shed(blocks, at);
        lemma_fitted_orders(blocks, height, blocks[at].drop_order);
        lemma_shed_in_turn(blocks, at, order);
        law_shed_in_order(shed(blocks, at), height, kept, order);
    }
}

/// What is never dropped is never touched either.
pub proof fn law_essentials_stay(blocks: Seq<BlockModel>, height: nat)
    ensures
        in_turn(fitted(blocks, height), 0) == in_turn(blocks, 0),
    decreases total_height(blocks) + blocks.len(),
{
    if total_height(blocks) > height && sheddable(blocks) {
        let at = victim(blocks);
        lemma_victim(blocks);
        lemma_shed(blocks, at);
        lemma_shed_in_turn(blocks, at, 0);
        law_essentials_stay(shed(blocks, at), height);
    }
}

/// No more is given up than has to be: a layout that was too tall ends up with no row to
/// spare.
pub proof fn law_no_more_is_shed_than_needed(blocks: Seq<BlockModel>, height: nat)
    requires
        total_height(blocks) > height,
    ensures
        total_height(fitted(blocks, height)) >= height,
    decreases total_height(blocks) + blocks.len(),
{
    if sheddable(blocks) {
        let at = victim(blocks);
        lemma_victim(blocks);
        lemma_shed(blocks, at);
        let after = shed(blocks, at);
        match blocks[at].kind {
            KindModel::Spectrum(rows) if rows > 1 => {
                lemma_height_update(
                    blocks,
                    at,
                    block(KindModel::Spectrum((rows - 1) as usize), blocks[at].drop_order),
                );
            },
            _ => {
                lemma_height_remove(blocks, at);
            },
        }
        if total_height(after) > height {
            law_no_more_is_shed_than_needed(after, height);
        } else {
            law_what_fits_stays(after, height);
        }
    }
}

/// A block takes one row, but for a spectrum, which takes as many as it has; the rows of two
/// stacks add up.
pub proof fn law_rows_add_up(one: Seq<BlockModel>, other: Seq<BlockModel>, made: BlockModel)
    ensures
        total_height(one + other) == total_height(one) + total_height(other),
        made.kind matches KindModel::Spectrum(rows) ==> total_height(seq![made]) == rows,
        !(made.kind is Spectrum) ==> total_height(seq![made]) == 1,
    decreases other.len(),
{
    let alone = seq![made];
    assert(alone.drop_last() =~= Seq::<BlockModel>::empty());
    assert(total_height(alone.drop_last()) == 0);
    assert(alone.last() == made);
    if other.len() == 0 {
        assert(one + other =~= one);
    } else {
        law_rows_add_up(one, other.drop_last(), made);
        assert((one + other).drop_last() =~= one + other.drop_last());
    }
}

/// The most droppable block goes first, of several the lowest; a spectrum gives up one row
/// at a time while it has more than one, and keeps its turn.
pub proof fn law_the_lowest_of_the_most_droppable_goes(blocks: Seq<BlockModel>, i: int)
    requires
        0 <= i < blocks.len(),
    ensures
        ({
            let at = victim(blocks);
            let after = shed(blocks, at);
            &&& 0 <= at < blocks.len()
            &&& blocks[i].drop_order <= blocks[at].drop_order
            &&& i > at ==> blocks[i].drop_order < blocks[at].drop_order
            &&& blocks[at].kind matches KindModel::Spectrum(rows) ==> rows > 1 ==> after.len()
                == blocks.len() && after[at].kind == KindModel::Spectrum((rows - 1) as usize)
                && after[at].drop_order == blocks[at].drop_order && (i != at ==> after[i]
                == blocks[i])
            &&& !(blocks[at].kind is Spectrum) ==> after.len() + 1 == blocks.len() && (i < at
                ==> after[i] == blocks[i]) && (i > at ==> after[i - 1] == blocks[i])
        }),
{
    lemma_victim(blocks);
}

} // verus!
