//! Album art for the now playing card.
//!
//! Covers are fetched elsewhere. Here is what their files hold, what is kept of them, which
//! cells they are drawn in, and which colours a cover is made of.

use image::imageops::FilterType;
use image::{imageops, RgbImage};
use vstd::prelude::*;

use crate::canvas::Vec2;
use crate::text;

verus! {

/// How long a cover takes to fade up out of the card once it has been decoded, in
/// nanoseconds, so it arrives rather than popping in a frame after the text.
pub const FADE: u128 = 320_000_000;
/// Redraws asked for while a cover fades in. The rest of the UI only refreshes a couple of
/// times a second, which is not enough to see a fade, so the fade drives its own frames and
/// then stops.
pub const FADE_FRAMES: u32 = 12;
/// Covers kept decoded at once. The card needs one, a list of results needs one per row,
/// and a handful more costs a few hundred kilobytes.
pub const MAX_LOADED: usize = 12;
/// Cell grids kept at once. One cover can be scaled to several sizes at the same time: the
/// card's, and the thumbnail in the list behind it.
pub const MAX_SCALED: usize = 24;

// ---------------------------------------------------------------------------
// Cells.
// ---------------------------------------------------------------------------

/// A colour by its components.
#[derive(Clone, Copy, PartialEq, Eq, Structural, Debug)]
pub struct Rgb {
    pub r: u8,
    pub g: u8,
    pub b: u8,
}

/// One printed cell: a block glyph and the two colours it is drawn in.
#[derive(Clone, Copy, PartialEq, Eq, Structural, Debug)]
pub struct Cell {
    pub glyph: char,
    pub foreground: Rgb,
    pub background: Rgb,
}

/// Whether a subpixel takes the foreground colour: bit 0 of the mask is the one at the top
/// left, 1 at the top right, 2 at the bottom left, 3 at the bottom right.
pub open spec fn is_front(mask: usize, subpixel: usize) -> bool {
    let shifted = match subpixel {
        0 => mask,
        1 => mask / 2,
        2 => mask / 4,
        _ => mask / 8,
    };
    shifted % 2 == 1
}

/// Whether a subpixel takes the foreground colour.
pub fn in_front(mask: usize, subpixel: usize) -> (front: bool)
    requires
        mask < 16,
        subpixel < 4,
    ensures
        front == is_front(mask, subpixel),
{
    let shifted: usize = match subpixel {
        0 => mask,
        1 => mask / 2,
        2 => mask / 4,
        _ => mask / 8,
    };
    shifted % 2 == 1
}

/// The quadrant block for the subpixels that take the foreground colour. Every way of
/// splitting a cell in two is in here, so a cell can carry four subpixels in two colours
/// instead of the two a half block manages.
pub open spec fn quadrant_glyph(mask: usize) -> char {
    match mask {
        0 => ' ',
        1 => '\u{2598}',
        2 => '\u{259d}',
        3 => '\u{2580}',
        4 => '\u{2596}',
        5 => '\u{258c}',
        6 => '\u{259e}',
        7 => '\u{259b}',
        8 => '\u{2597}',
        9 => '\u{259a}',
        10 => '\u{2590}',
        11 => '\u{259c}',
        12 => '\u{2584}',
        13 => '\u{2599}',
        14 => '\u{259f}',
        _ => '\u{2588}',
    }
}

/// The quadrant block for the subpixels that take the foreground colour.
pub fn quadrant(mask: usize) -> (glyph: char)
    requires
        mask < 16,
    ensures
        glyph == quadrant_glyph(mask),
{
    match mask {
        0 => ' ',
        1 => '\u{2598}',
        2 => '\u{259d}',
        3 => '\u{2580}',
        4 => '\u{2596}',
        5 => '\u{258c}',
        6 => '\u{259e}',
        7 => '\u{259b}',
        8 => '\u{2597}',
        9 => '\u{259a}',
        10 => '\u{2590}',
        11 => '\u{259c}',
        12 => '\u{2584}',
        13 => '\u{2599}',
        14 => '\u{259f}',
        _ => '\u{2588}',
    }
}

/// The largest cost that a split can win with: the bits of the largest finite number.
pub const COST_LIMIT: u32 = 0x7f7f_ffff;

/// Whether `mask` is the split to draw a cell with: it costs less than every split with a
/// larger mask and no more than any with a smaller one, or nothing costs less than the
/// limit and the cell stays one solid block.
pub open spec fn is_best_split(costs: Seq<u32>, mask: int) -> bool {
    &&& 1 <= mask < 16
    &&& costs[mask] < COST_LIMIT || mask == 15
    &&& forall|other: int|
        1 <= other < 16 && #[trigger] costs[other] < COST_LIMIT ==> costs[mask] <= costs[other] && (
        other > mask ==> costs[mask] < costs[other])
}

/// The split whose two colours sit closest to the subpixels they cover, so an edge running
/// through a cell is drawn as an edge rather than smeared into an average.
///
/// `costs` holds, for each mask, the bits of a cost that is not negative; such bits order
/// as the numbers do. The solid block is the starting point, so a cell with nothing to
/// split stays one glyph instead of an arbitrary quarter.
pub fn best_split(costs: &Vec<u32>) -> (mask: usize)
    requires
        costs@.len() == 16,
    ensures
        is_best_split(costs@, mask as int),
{
    let mut best: usize = 15;
    let mut least: u32 = COST_LIMIT;
    let mut mask: usize = 16;
    while mask > 1
        invariant
            costs@.len() == 16,
            1 <= mask <= 16,
            1 <= best < 16,
            least <= COST_LIMIT,
            least < COST_LIMIT ==> least == costs@[best as int] && best >= mask,
            least == COST_LIMIT ==> best == 15,
            forall|other: int|
                mask <= other < 16 && #[trigger] costs@[other] < COST_LIMIT ==> least
                    <= costs@[other] && (other > best ==> least < costs@[other]),
        decreases mask,
    {
        mask = mask - 1;
        if costs[mask] < least {
            least = costs[mask];
            best = mask;
        }
    }
    best
}

/// One cell and where it is printed.
#[derive(Clone, Copy, PartialEq, Eq, Structural, Debug)]
pub struct Placed {
    pub x: usize,
    pub y: usize,
    pub cell: Cell,
}

// ---------------------------------------------------------------------------
// Caches.
// ---------------------------------------------------------------------------

/// A decoded cover, kept around so a resize does not have to decode it again.
pub struct Loaded<I> {
    pub url: String,
    pub image: I,
    /// When this cover became drawable, which is where its fade in starts.
    pub shown_at: u128,
}

/// A cover scaled to an exact cell grid, ready to print.
pub struct Scaled {
    pub url: String,
    pub size: Vec2,
    /// Every cell of the grid, row major.
    pub cells: Vec<Cell>,
}

/// What tells the covers of other URLs.
pub open spec fn of_another_url<I>(url: Seq<char>) -> spec_fn(Loaded<I>) -> bool {
    |cover: Loaded<I>| cover.url@ != url
}

/// What tells the grids of other covers, or of other sizes.
pub open spec fn of_another_kind(url: Seq<char>, size: Vec2) -> spec_fn(Scaled) -> bool {
    |grid: Scaled| !(grid.url@ == url && grid.size == size)
}

/// The covers of other URLs.
pub open spec fn other_covers<I>(covers: Seq<Loaded<I>>, url: Seq<char>) -> Seq<Loaded<I>> {
    covers.filter(of_another_url(url))
}

/// The grids of other covers, or of other sizes.
pub open spec fn other_grids(grids: Seq<Scaled>, url: Seq<char>, size: Vec2) -> Seq<Scaled> {
    grids.filter(of_another_kind(url, size))
}

/// The last `count` of a list, or all of it where it is shorter.
pub open spec fn last_of<T>(list: Seq<T>, count: nat) -> Seq<T> {
    if list.len() <= count {
        list
    } else {
        list.skip(list.len() - count)
    }
}

/// Whether there is a cover for `url`.
pub open spec fn has_cover<I>(covers: Seq<Loaded<I>>, url: Seq<char>) -> bool {
    exists|i: int| 0 <= i < covers.len() && (#[trigger] covers[i]).url@ == url
}

/// Whether there is a grid for `url` at `size`.
pub open spec fn has_grid(grids: Seq<Scaled>, url: Seq<char>, size: Vec2) -> bool {
    exists|i: int|
        0 <= i < grids.len() && (#[trigger] grids[i]).url@ == url && grids[i].size == size
}

/// Where the cover for `url` stands.
pub open spec fn cover_at<I>(covers: Seq<Loaded<I>>, url: Seq<char>) -> int {
    choose|i: int| 0 <= i < covers.len() && (#[trigger] covers[i]).url@ == url
}

/// Where the grid for `url` at `size` stands.
pub open spec fn grid_at(grids: Seq<Scaled>, url: Seq<char>, size: Vec2) -> int {
    choose|i: int|
        0 <= i < grids.len() && (#[trigger] grids[i]).url@ == url && grids[i].size == size
}

/// The covers after the one for `url` was used, if there is one: it is the last to go.
pub open spec fn used_covers<I>(covers: Seq<Loaded<I>>, url: Seq<char>) -> Seq<Loaded<I>> {
    if has_cover(covers, url) {
        other_covers(covers, url).push(covers[cover_at(covers, url)])
    } else {
        covers
    }
}

/// The grids after the one for `url` at `size` was used, if there is one: it is the last to
/// go.
pub open spec fn used_grids(grids: Seq<Scaled>, url: Seq<char>, size: Vec2) -> Seq<Scaled> {
    if has_grid(grids, url, size) {
        other_grids(grids, url, size).push(grids[grid_at(grids, url, size)])
    } else {
        grids
    }
}

/// Where everything is kept, nothing is filtered out.
proof fn lemma_all_stay<T>(list: Seq<T>, keep: spec_fn(T) -> bool)
    requires
        forall|i: int| 0 <= i < list.len() ==> keep(#[trigger] list[i]),
    ensures
        list.filter(keep) == list,
    decreases list.len(),
{
    reveal(Seq::filter);
    if list.len() > 0 {
        let fewer = list.drop_last();
        assert forall|i: int| 0 <= i < fewer.len() implies keep(#[trigger] fewer[i]) by {
            assert(fewer[i] == list[i]);
        }
        lemma_all_stay(fewer, keep);
        assert(keep(list.last()));
        assert(fewer.push(list.last()) =~= list);
    }
}

/// Where everything but one is kept, that one is taken out.
proof fn lemma_one_goes<T>(list: Seq<T>, keep: spec_fn(T) -> bool, index: int)
    requires
        0 <= index < list.len(),
        !keep(list[index]),
        forall|i: int| 0 <= i < list.len() && i != index ==> keep(#[trigger] list[i]),
    ensures
        list.filter(keep) == list.remove(index),
    decreases list.len(),
{
    reveal(Seq::filter);
    let fewer = list.drop_last();
    if index == list.len() - 1 {
        assert forall|i: int| 0 <= i < fewer.len() implies keep(#[trigger] fewer[i]) by {
            assert(fewer[i] == list[i]);
        }
        lemma_all_stay(fewer, keep);
        assert(fewer =~= list.remove(index));
    } else {
        assert(fewer[index] == list[index]);
        assert forall|i: int| 0 <= i < fewer.len() && i != index implies keep(
            #[trigger] fewer[i],
        ) by {
            assert(fewer[i] == list[i]);
        }
        lemma_one_goes(fewer, keep, index);
        assert(keep(list[list.len() - 1]));
        assert(fewer.remove(index).push(list.last()) =~= list.remove(index));
    }
}

/// Whether a URL is in a list.
pub open spec fn lists(urls: Seq<String>, url: Seq<char>) -> bool {
    text::texts(urls).contains(url)
}

fn position(urls: &Vec<String>, url: &str) -> (found: Option<usize>)
    ensures
        found is Some <==> lists(urls@, url@),
        found matches Some(index) ==> index < urls@.len() && urls@[index as int]@ == url@,
{
    for i in 0..urls.len()
        invariant
            forall|j: int| 0 <= j < i ==> (#[trigger] text::texts(urls@)[j]) != url@,
    {
        if text::same(&urls[i], url) {
            assert(text::texts(urls@)[i as int] == url@);
            return Some(i);
        }
    }
    None
}

/// What becomes of a request to draw a cover.
pub enum Drawing {
    /// Nothing can be drawn in so little room.
    NoRoom,
    /// The cover is not here yet; whether a fetch has to be started.
    Missing { fetch: bool },
    /// The cover is here, but not at this size.
    Unscaled,
    /// The cells to print.
    Cells(Vec<Placed>),
}

/// The cells of a grid, placed from `offset` on, row by row.
pub open spec fn placed_cells(cells: Seq<Cell>, size: Vec2, offset: Vec2) -> Seq<Placed> {
    Seq::new(
        (size.x * size.y) as nat,
        |k: int|
            Placed {
                x: (offset.x + k % size.x as int) as usize,
                y: (offset.y + k / size.x as int) as usize,
                cell: cells[k],
            },
    )
}

/// Decoded covers and the grids made of them, each least recently used first.
pub struct AlbumArt<I> {
    pub loaded: Vec<Loaded<I>>,
    pub scaled: Vec<Scaled>,
    /// What is being fetched.
    pub pending: Vec<String>,
}

/// Every grid has a cell for each of its places.
pub open spec fn whole_grids(grids: Seq<Scaled>) -> bool {
    forall|i: int|
        0 <= i < grids.len() ==> (#[trigger] grids[i]).cells@.len() == grids[i].size.x
            * grids[i].size.y
}

/// No two covers are of the same URL.
pub open spec fn distinct_covers<I>(covers: Seq<Loaded<I>>) -> bool {
    forall|i: int, j: int|
        0 <= i < j < covers.len() ==> (#[trigger] covers[i]).url@ != (#[trigger] covers[j]).url@
}

/// No two grids are of the same cover at the same size.
pub open spec fn distinct_grids(grids: Seq<Scaled>) -> bool {
    forall|i: int, j: int|
        0 <= i < j < grids.len() ==> !((#[trigger] grids[i]).url@ == (#[trigger] grids[j]).url@
            && grids[i].size == grids[j].size)
}

impl<I> AlbumArt<I> {
    /// There is one cover for each URL and one grid for each cover and size, no more of them
    /// than are kept, every grid has a cell for each of its places, and nothing is fetched
    /// twice at the same time.
    pub open spec fn wf(&self) -> bool {
        &&& distinct_covers(self.loaded@)
        &&& self.loaded@.len() <= MAX_LOADED
        &&& distinct_grids(self.scaled@)
        &&& self.scaled@.len() <= MAX_SCALED
        &&& whole_grids(self.scaled@)
        &&& text::texts(self.pending@).no_duplicates()
    }

    /// No covers at all.
    pub fn new() -> (art: Self)
        ensures
            art.wf(),
            art.loaded@ == Seq::<Loaded<I>>::empty(),
            art.scaled@ == Seq::<Scaled>::empty(),
            art.pending@ == Seq::<String>::empty(),
    {
        AlbumArt { loaded: Vec::new(), scaled: Vec::new(), pending: Vec::new() }
    }

    /// Where the decoded cover for `url` stands.
    fn find_cover(&self, url: &str) -> (found: Option<usize>)
        ensures
            found is Some <==> has_cover(self.loaded@, url@),
            found matches Some(index) ==> index < self.loaded@.len()
                && self.loaded@[index as int].url@ == url@,
    {
        for i in 0..self.loaded.len()
            invariant
                forall|j: int| 0 <= j < i ==> (#[trigger] self.loaded@[j]).url@ != url@,
        {
            if text::same(&self.loaded[i].url, url) {
                assert(self.loaded@[i as int].url@ == url@);
                return Some(i);
            }
        }
        None
    }

    /// Where the grid for `url` at `size` stands.
    fn find_grid(&self, url: &str, size: Vec2) -> (found: Option<usize>)
        ensures
            found is Some <==> has_grid(self.scaled@, url@, size),
            found matches Some(index) ==> index < self.scaled@.len()
                && self.scaled@[index as int].url@ == url@ && self.scaled@[index as int].size
                == size,
    {
        for i in 0..self.scaled.len()
            invariant
                forall|j: int|
                    0 <= j < i ==> !((#[trigger] self.scaled@[j]).url@ == url@
                        && self.scaled@[j].size == size),
        {
            if text::same(&self.scaled[i].url, url) && self.scaled[i].size == size {
                assert(self.scaled@[i as int].url@ == url@);
                return Some(i);
            }
        }
        None
    }

    /// The decoded cover for `url`.
    pub fn cover(&self, url: &str) -> (found: Option<&Loaded<I>>)
        ensures
            found is Some <==> has_cover(self.loaded@, url@),
            found matches Some(cover) ==> cover.url@ == url@ && self.loaded@.contains(*cover),
    {
        match self.find_cover(url) {
            Some(index) => Some(&self.loaded[index]),
            None => None,
        }
    }

    /// Whether a cover for `url` is already loaded.
    pub fn is_ready(&self, url: &str) -> (ready: bool)
        ensures
            ready == has_cover(self.loaded@, url@),
    {
        self.find_cover(url).is_some()
    }

    /// The grid for `url` at `size`.
    pub fn grid(&self, url: &str, size: Vec2) -> (found: Option<&Scaled>)
        ensures
            found is Some <==> has_grid(self.scaled@, url@, size),
            found matches Some(grid) ==> grid.url@ == url@ && grid.size == size
                && self.scaled@.contains(*grid),
    {
        match self.find_grid(url, size) {
            Some(index) => Some(&self.scaled[index]),
            None => None,
        }
    }

    /// The cover for `url` is used, so it is the last to go. Answers whether there is one.
    fn use_cover(&mut self, url: &str) -> (found: bool)
        requires
            old(self).wf(),
        ensures
            final(self).wf(),
            final(self).scaled@ == old(self).scaled@,
            final(self).pending@ == old(self).pending@,
            found == has_cover(old(self).loaded@, url@),
            final(self).loaded@ == used_covers(old(self).loaded@, url@),
    {
        match self.find_cover(url) {
            None => false,
            Some(index) => {
                let ghost before = self.loaded@;
                let cover = self.loaded.remove(index);
                self.loaded.push(cover);
                proof {
                    assert(before[index as int].url@ == url@);
                    assert(cover_at(before, url@) == index);
                    lemma_one_goes(before, of_another_url(url@), index as int);
                }
                true
            },
        }
    }

    /// The grid for `url` at `size` is used, so it is the last to go. Answers whether there
    /// is one.
    fn use_grid(&mut self, url: &str, size: Vec2) -> (found: bool)
        requires
            old(self).wf(),
        ensures
            final(self).wf(),
            final(self).loaded@ == old(self).loaded@,
            final(self).pending@ == old(self).pending@,
            found == has_grid(old(self).scaled@, url@, size),
            final(self).scaled@ == used_grids(old(self).scaled@, url@, size),
            found ==> final(self).scaled@.len() > 0 && final(self).scaled@.last()
                == old(self).scaled@[grid_at(old(self).scaled@, url@, size)]
                && final(self).scaled@.last().size == size,
    {
        match self.find_grid(url, size) {
            None => false,
            Some(index) => {
                let ghost before = self.scaled@;
                let grid = self.scaled.remove(index);
                self.scaled.push(grid);
                proof {
                    assert(before[index as int].url@ == url@);
                    assert(grid_at(before, url@, size) == index);
                    lemma_one_goes(before, of_another_kind(url@, size), index as int);
                }
                true
            },
        }
    }

    /// Start fetching `url`, unless that is already happening. Answers whether it was
    /// started.
    pub fn prefetch(&mut self, url: &str) -> (started: bool)
        requires
            old(self).wf(),
        ensures
            final(self).wf(),
            final(self).loaded@ == old(self).loaded@,
            final(self).scaled@ == old(self).scaled@,
            started == !lists(old(self).pending@, url@),
            text::texts(final(self).pending@) == (if started {
                text::texts(old(self).pending@).push(url@)
            } else {
                text::texts(old(self).pending@)
            }),
            lists(final(self).pending@, url@),
    {
        if position(&self.pending, url).is_some() {
            return false;
        }
        let ghost before = self.pending@;
        self.pending.push(url.to_owned());
        assert(text::texts(self.pending@) =~= text::texts(before).push(url@));
        assert(text::texts(self.pending@)[before.len() as int] == url@);
        true
    }

    /// Put a cover in that became drawable at `now`, in place of an older one of the same
    /// URL, and drop the ones loaded longest ago once the cache outgrows its budget.
    pub fn load(&mut self, url: &str, image: I, now: u128)
        requires
            old(self).wf(),
        ensures
            final(self).wf(),
            final(self).scaled@ == old(self).scaled@,
            final(self).pending@ == old(self).pending@,
            exists|cover: Loaded<I>|
                cover.url@ == url@ && cover.image == image && cover.shown_at == now
                    && final(self).loaded@ == #[trigger] last_of(
                    other_covers(old(self).loaded@, url@).push(cover),
                    MAX_LOADED as nat,
                ),
            has_cover(final(self).loaded@, url@),
            final(self).loaded@.last().url@ == url@,
    {
        let ghost before = self.loaded@;
        let ghost keep = of_another_url::<I>(url@);
        let mut i: usize = 0;
        let ghost mut seen: int = 0;
        assert(before.skip(0) =~= before);
        proof {
            reveal(Seq::filter);
            assert(before.take(0).filter(keep) =~= Seq::<Loaded<I>>::empty());
        }
        while i < self.loaded.len()
            invariant
                self.scaled@ == old(self).scaled@,
                self.pending@ == old(self).pending@,
                keep == of_another_url::<I>(url@),
                0 <= seen <= before.len(),
                i == before.take(seen).filter(keep).len(),
                self.loaded@ =~= before.take(seen).filter(keep) + before.skip(seen),
                distinct_covers(self.loaded@),
                forall|k: int| 0 <= k < i ==> (#[trigger] self.loaded@[k]).url@ != url@,
            decreases self.loaded@.len() - i,
        {
            proof {
                reveal(Seq::filter);
                assert(self.loaded@[i as int] == before.skip(seen)[0]);
                assert(before.take(seen + 1).drop_last() =~= before.take(seen));
                assert(before.take(seen + 1).last() == before[seen]);
                assert(before.skip(seen) =~= seq![before[seen]] + before.skip(seen + 1));
            }
            if text::same(&self.loaded[i].url, url) {
                let _ = self.loaded.remove(i);
            } else {
                i = i + 1;
            }
            proof {
                seen = seen + 1;
            }
        }
        proof {
            assert(before.skip(seen).len() == 0);
            assert(before.take(seen) =~= before);
            assert(self.loaded@ =~= other_covers(before, url@));
        }
        let cover = Loaded { url: url.to_owned(), image, shown_at: now };
        let ghost whole = other_covers(before, url@).push(cover);
        self.loaded.push(cover);
        let ghost mut dropped: int = 0;
        assert(whole.skip(0) =~= whole);
        while self.loaded.len() > MAX_LOADED
            invariant
                self.scaled@ == old(self).scaled@,
                self.pending@ == old(self).pending@,
                0 <= dropped <= whole.len(),
                self.loaded@ =~= whole.skip(dropped),
                dropped == 0 || whole.len() - dropped >= MAX_LOADED,
                distinct_covers(self.loaded@),
            decreases self.loaded@.len(),
        {
            let _ = self.loaded.remove(0);
            proof {
                dropped = dropped + 1;
            }
        }
        assert(self.loaded@ =~= last_of(whole, MAX_LOADED as nat));
        assert(self.loaded@[self.loaded@.len() - 1].url@ == url@);
    }

    /// A fetch of `url` has ended, with a cover or without one. Answers whether there is a
    /// cover to fade in.
    pub fn install(&mut self, url: &str, image: Option<I>, now: u128) -> (arrived: bool)
        requires
            old(self).wf(),
        ensures
            final(self).wf(),
            final(self).scaled@ == old(self).scaled@,
            arrived == (image is Some),
            match image {
                Some(image) => exists|cover: Loaded<I>|
                    cover.url@ == url@ && cover.image == image && cover.shown_at == now
                        && final(self).loaded@ == #[trigger] last_of(
                        other_covers(old(self).loaded@, url@).push(cover),
                        MAX_LOADED as nat,
                    ),
                None => final(self).loaded@ == old(self).loaded@,
            },
            lists(old(self).pending@, url@) ==> exists|at: int|
                0 <= at < old(self).pending@.len() && old(self).pending@[at]@ == url@
                    && final(self).pending@ == #[trigger] old(self).pending@.remove(at),
            !lists(old(self).pending@, url@) ==> final(self).pending@ == old(self).pending@,
            !lists(final(self).pending@, url@),
            arrived ==> has_cover(final(self).loaded@, url@),
    {
        let arrived = image.is_some();
        if let Some(image) = image {
            self.load(url, image, now);
        }
        if let Some(index) = position(&self.pending, url) {
            let ghost before = self.pending@;
            let _ = self.pending.remove(index);
            proof {
                assert(self.pending@ == before.remove(index as int));
                let rest = text::texts(self.pending@);
                assert(rest =~= text::texts(before).remove(index as int));
                assert(text::texts(before)[index as int] == url@);
                if rest.contains(url@) {
                    let at = choose|at: int| 0 <= at < rest.len() && rest[at] == url@;
                    let there = if at < index {
                        at
                    } else {
                        at + 1
                    };
                    assert(text::texts(before)[there] == url@);
                }
            }
        }
        arrived
    }

    /// Keep the grid of a cover at a size, and drop the grids made longest ago once there
    /// are too many.
    pub fn store_grid(&mut self, url: &str, size: Vec2, cells: Vec<Cell>)
        requires
            old(self).wf(),
            cells@.len() == size.x * size.y,
        ensures
            final(self).wf(),
            final(self).loaded@ == old(self).loaded@,
            final(self).pending@ == old(self).pending@,
            exists|grid: Scaled|
                grid.url@ == url@ && grid.size == size && grid.cells@ == cells@
                    && final(self).scaled@ == #[trigger] last_of(
                    other_grids(old(self).scaled@, url@, size).push(grid),
                    MAX_SCALED as nat,
                ),
    {
        let ghost before = self.scaled@;
        let ghost keep = of_another_kind(url@, size);
        let mut i: usize = 0;
        let ghost mut seen: int = 0;
        assert(before.skip(0) =~= before);
        proof {
            reveal(Seq::filter);
            assert(before.take(0).filter(keep) =~= Seq::<Scaled>::empty());
        }
        while i < self.scaled.len()
            invariant
                self.loaded@ == old(self).loaded@,
                self.pending@ == old(self).pending@,
                keep == of_another_kind(url@, size),
                0 <= seen <= before.len(),
                i == before.take(seen).filter(keep).len(),
                self.scaled@ =~= before.take(seen).filter(keep) + before.skip(seen),
                distinct_grids(self.scaled@),
                forall|k: int|
                    0 <= k < i ==> !((#[trigger] self.scaled@[k]).url@ == url@
                        && self.scaled@[k].size == size),
            decreases self.scaled@.len() - i,
        {
            proof {
                reveal(Seq::filter);
                assert(self.scaled@[i as int] == before.skip(seen)[0]);
                assert(before.take(seen + 1).drop_last() =~= before.take(seen));
                assert(before.take(seen + 1).last() == before[seen]);
                assert(before.skip(seen) =~= seq![before[seen]] + before.skip(seen + 1));
            }
            if text::same(&self.scaled[i].url, url) && self.scaled[i].size == size {
                let _ = self.scaled.remove(i);
            } else {
                i = i + 1;
            }
            proof {
                seen = seen + 1;
            }
        }
        proof {
            assert(before.skip(seen).len() == 0);
            assert(before.take(seen) =~= before);
            assert(self.scaled@ =~= other_grids(before, url@, size));
        }
        let grid = Scaled { url: url.to_owned(), size, cells };
        let ghost whole = other_grids(before, url@, size).push(grid);
        self.scaled.push(grid);
        let ghost mut dropped: int = 0;
        assert(whole.skip(0) =~= whole);
        while self.scaled.len() > MAX_SCALED
            invariant
                self.loaded@ == old(self).loaded@,
                self.pending@ == old(self).pending@,
                0 <= dropped <= whole.len(),
                self.scaled@ =~= whole.skip(dropped),
                dropped == 0 || whole.len() - dropped >= MAX_SCALED,
                distinct_grids(self.scaled@),
            decreases self.scaled@.len(),
        {
            let _ = self.scaled.remove(0);
            proof {
                dropped = dropped + 1;
            }
        }
        assert(self.scaled@ =~= last_of(whole, MAX_SCALED as nat));
        assert forall|i: int| 0 <= i < self.scaled@.len() implies (
        #[trigger] self.scaled@[i]).cells@.len() == self.scaled@[i].size.x
            * self.scaled@[i].size.y by {
            let at = i + whole.len() - self.scaled@.len();
            assert(self.scaled@[i] == whole[at]);
            if at < whole.len() - 1 {
                assert(other_grids(before, url@, size)[at] == whole[at]);
                before.lemma_filter_contains_rev(keep, whole[at]);
            }
        }
    }

    /// Draw the cover at `url` into `size` cells at `offset`.
    ///
    /// A cover that is not ready yet is fetched, and the caller lays out without it. One
    /// that is ready but was never drawn at this size has to be scaled first. What is drawn
    /// counts as used: the cover and its grid are then the last to go.
    pub fn draw(&mut self, offset: Vec2, size: Vec2, url: &str) -> (drawing: Drawing)
        requires
            offset.x + size.x <= usize::MAX,
            offset.y + size.y <= usize::MAX,
            size.x * size.y <= usize::MAX,
            old(self).wf(),
        ensures
            final(self).wf(),
            size.x == 0 || size.y == 0 ==> drawing is NoRoom && *final(self) == *old(self),
            size.x > 0 && size.y > 0 ==> final(self).loaded@ == used_covers(
                old(self).loaded@,
                url@,
            ) && final(self).scaled@ == used_grids(old(self).scaled@, url@, size),
            size.x > 0 && size.y > 0 && has_grid(old(self).scaled@, url@, size) ==> (
            drawing matches Drawing::Cells(cells) && cells@ == placed_cells(
                old(self).scaled@[grid_at(old(self).scaled@, url@, size)].cells@,
                size,
                offset,
            )),
            size.x > 0 && size.y > 0 && !has_grid(old(self).scaled@, url@, size) && has_cover(
                old(self).loaded@,
                url@,
            ) ==> drawing is Unscaled,
            drawing is Cells || drawing is Unscaled ==> final(self).pending@ == old(
                self,
            ).pending@,
            size.x > 0 && size.y > 0 && !has_grid(old(self).scaled@, url@, size) && !has_cover(
                old(self).loaded@,
                url@,
            ) ==> (drawing matches Drawing::Missing { fetch } && fetch == !lists(
                old(self).pending@,
                url@,
            ) && text::texts(final(self).pending@) == (if fetch {
                text::texts(old(self).pending@).push(url@)
            } else {
                text::texts(old(self).pending@)
            })),
    {
        if size.x == 0 || size.y == 0 {
            return Drawing::NoRoom;
        }
        let ready = self.use_cover(url);
        if self.use_grid(url, size) {
            let last: usize = self.scaled.len() - 1;
            return Drawing::Cells(place(&self.scaled[last].cells, size, offset));
        }
        if ready {
            return Drawing::Unscaled;
        }
        let fetch = self.prefetch(url);
        Drawing::Missing { fetch }
    }
}

/// Place the cells of a grid from `offset` on, row by row.
fn place(cells: &Vec<Cell>, size: Vec2, offset: Vec2) -> (placed: Vec<Placed>)
    requires
        size.x > 0,
        offset.x + size.x <= usize::MAX,
        offset.y + size.y <= usize::MAX,
        cells@.len() == size.x * size.y,
    ensures
        placed@ == placed_cells(cells@, size, offset),
{
    let mut placed: Vec<Placed> = Vec::new();
    let columns: usize = size.x;
    for k in 0..cells.len()
        invariant
            columns == size.x,
            columns > 0,
            offset.x + size.x <= usize::MAX,
            offset.y + size.y <= usize::MAX,
            cells@.len() == size.x * size.y,
            placed@ =~= placed_cells(cells@, size, offset).take(k as int),
    {
        proof {
            assert(k / columns < size.y) by (nonlinear_arith)
                requires
                    k < columns * size.y,
                    columns > 0,
            ;
        }
        placed.push(
            Placed { x: offset.x + k % columns, y: offset.y + k / columns, cell: cells[k] },
        );
    }
    assert(placed_cells(cells@, size, offset).take(cells@.len() as int) =~= placed_cells(
        cells@,
        size,
        offset,
    ));
    placed
}

/// The URLs that were not queued before, each once, in the order in which they came.
pub open spec fn newly_queued(queued: Seq<Seq<char>>, urls: Seq<Seq<char>>) -> Seq<Seq<char>>
    decreases urls.len(),
{
    if urls.len() == 0 {
        Seq::empty()
    } else {
        let before = newly_queued(queued, urls.drop_last());
        if queued.contains(urls.last()) || before.contains(urls.last()) {
            before
        } else {
            before.push(urls.last())
        }
    }
}

/// The covers of `urls` that are worth fetching, newest first: anything already queued is
/// skipped.
pub fn prefetch_covers(queued: &mut Vec<String>, urls: &Vec<String>) -> (wanted: Vec<String>)
    ensures
        text::texts(wanted@) == newly_queued(
            text::texts(old(queued)@),
            text::texts(urls@),
        ).reverse(),
        text::texts(final(queued)@) == text::texts(old(queued)@) + newly_queued(
            text::texts(old(queued)@),
            text::texts(urls@),
        ),
        forall|i: int|
            0 <= i < urls@.len() ==> text::texts(final(queued)@).contains(#[trigger] urls@[i]@),
        urls@.len() > 0 && !lists(old(queued)@, urls@.last()@) && !text::texts(
            urls@.drop_last(),
        ).contains(urls@.last()@) ==> wanted@.len() > 0 && wanted@[0]@ == urls@.last()@,
{
    let first: usize = queued.len();
    let ghost known = text::texts(queued@);
    let ghost asked = text::texts(urls@);
    assert(asked.take(0) =~= Seq::<Seq<char>>::empty());
    for i in 0..urls.len()
        invariant
            asked == text::texts(urls@),
            text::texts(queued@) =~= known + newly_queued(known, asked.take(i as int)),
    {
        let ghost before = newly_queued(known, asked.take(i as int));
        let ghost queue = queued@;
        let url = &urls[i];
        proof {
            assert(asked.take(i + 1).drop_last() =~= asked.take(i as int));
            assert(asked.take(i + 1).last() == url@);
            lemma_concat_contains(known, before, url@);
        }
        if position(queued, url).is_none() {
            queued.push(url.clone());
            assert(text::texts(queued@) =~= text::texts(queue).push(url@));
        }
    }
    assert(asked.take(asked.len() as int) =~= asked);
    let ghost fresh = newly_queued(known, asked);
    let mut wanted: Vec<String> = Vec::new();
    let mut next: usize = queued.len();
    while next > first
        invariant
            first == known.len(),
            first <= next <= queued@.len(),
            text::texts(queued@) == known + fresh,
            text::texts(wanted@) =~= fresh.skip(next - first).reverse(),
        decreases next,
    {
        let ghost before = wanted@;
        next = next - 1;
        wanted.push(queued[next].clone());
        proof {
            assert(text::texts(queued@).len() == queued@.len());
            assert(text::texts(queued@)[next as int] == fresh[next - first]);
            assert(text::texts(wanted@) =~= text::texts(before).push(fresh[next - first]));
            assert(fresh.skip(next - first) =~= seq![fresh[next - first]] + fresh.skip(
                next + 1 - first,
            ));
        }
    }
    assert(fresh.skip(0) =~= fresh);
    proof {
        law_covers_are_queued_once(known, asked);
        assert forall|i: int| 0 <= i < urls@.len() implies text::texts(queued@).contains(
            #[trigger] urls@[i]@,
        ) by {
            assert(asked[i] == urls@[i]@);
        }
        if urls@.len() > 0 && !known.contains(urls@.last()@) && !text::texts(
            urls@.drop_last(),
        ).contains(urls@.last()@) {
            assert(text::texts(urls@.drop_last()) =~= asked.drop_last());
            lemma_newly_queued_from(known, asked.drop_last(), asked.last());
            assert(fresh.last() == asked.last());
            assert(text::texts(wanted@)[0] == fresh.reverse()[0]);
        }
    }
    wanted
}

/// Only what was asked for is newly queued.
proof fn lemma_newly_queued_from(queued: Seq<Seq<char>>, urls: Seq<Seq<char>>, url: Seq<char>)
    ensures
        newly_queued(queued, urls).contains(url) ==> urls.contains(url),
    decreases urls.len(),
{
    if urls.len() > 0 {
        let fewer = urls.drop_last();
        let before = newly_queued(queued, fewer);
        let after = newly_queued(queued, urls);
        lemma_newly_queued_from(queued, fewer, url);
        if after.contains(url) {
            let at = choose|at: int| 0 <= at < after.len() && after[at] == url;
            if at < before.len() {
                assert(before[at] == url);
                let j = choose|j: int| 0 <= j < fewer.len() && fewer[j] == url;
                assert(urls[j] == url);
            } else {
                assert(urls[urls.len() - 1] == url);
            }
        }
    }
}

proof fn lemma_concat_contains(one: Seq<Seq<char>>, other: Seq<Seq<char>>, url: Seq<char>)
    ensures
        (one + other).contains(url) <==> one.contains(url) || other.contains(url),
{
    let both = one + other;
    if one.contains(url) {
        let i = choose|i: int| 0 <= i < one.len() && one[i] == url;
        assert(both[i] == url);
    }
    if other.contains(url) {
        let i = choose|i: int| 0 <= i < other.len() && other[i] == url;
        assert(both[one.len() + i] == url);
    }
    if both.contains(url) {
        let i = choose|i: int| 0 <= i < both.len() && both[i] == url;
        if i < one.len() {
            assert(one[i] == url);
        } else {
            assert(other[i - one.len()] == url);
        }
    }
}

// ---------------------------------------------------------------------------
// The colours of a cover.
// ---------------------------------------------------------------------------

/// The size a cover is reduced to before its colours are counted. Small enough to be quick,
/// big enough that a detail like a jacket does not vanish.
pub const ACCENT_SAMPLE: u32 = 48;
/// Colours are counted in a coarse cube, so near enough shades land together.
pub const ACCENT_BINS: usize = 6;
/// A decoded cover: the three components of each pixel, row by row.
pub struct Cover {
    pub width: u32,
    pub height: u32,
    pub pixels: Vec<u8>,
}

impl Cover {
    /// Every pixel has its three components.
    pub open spec fn wf(&self) -> bool {
        self.pixels@.len() == 3 * self.width * self.height
    }

    /// Whether a cover can be scaled in memory: each column takes a kilobyte meanwhile, and no
    /// list is longer than half of what can be addressed. With addresses of 64 bits that is
    /// so of every cover, with 32 bits of those that are not wider than some two million.
    pub open spec fn scalable(&self) -> bool {
        2048 * self.width <= usize::MAX
    }

    /// Whether the cover can be scaled in memory.
    pub fn is_scalable(&self) -> (scalable: bool)
        ensures
            scalable == self.scalable(),
    {
        2048 * (self.width as u128) <= usize::MAX as u128
    }
}

/// Whether what came of decoding a file is a cover with all its pixels, where it is a cover.
pub open spec fn whole_cover(decoded: Result<Cover, String>) -> bool {
    decoded matches Ok(cover) ==> cover.wf()
}

/// Calls `image::load_from_memory`, which guesses the format of a file from how it begins and
/// decodes it, and `image::DynamicImage::to_rgb8`. The contract says that a cover has three
/// bytes for each of its pixels. Which files can be decoded, what the pixels are and how a
/// failure is worded is left unsaid: decoders may work with other instructions on another
/// machine, and others can be registered while the program runs.
#[verifier::external_body]
fn decode(file: &Vec<u8>) -> (decoded: Result<Cover, String>)
    ensures
        whole_cover(decoded),
{
    match image::load_from_memory(file) {
        Ok(picture) => {
            let picture = picture.to_rgb8();
            let (width, height) = picture.dimensions();
            Ok(Cover { width, height, pixels: picture.into_raw() })
        },
        Err(error) => Err(error.to_string()),
    }
}

/// The cover in a file, or why there is none. The format is told from the contents, since
/// covers are kept under names that do not give it away.
pub fn read_cover(file: &Vec<u8>) -> (decoded: Result<Cover, String>)
    ensures
        whole_cover(decoded),
{
    decode(file)
}

/// What a picture of `width` by `height` pixels looks like when it is scaled to `side` by
/// `side`.
pub uninterp spec fn shrunk(pixels: Seq<u8>, width: u32, height: u32, side: u32) -> Seq<u8>;

/// Calls `image::imageops::resize` with the triangle filter on a picture of three bytes a
/// pixel. The contract names the picture that comes back, which depends on the arguments
/// alone, and says that it has three bytes for each of its pixels. The picture in between is
/// as wide as the first and as high as the second, with sixteen bytes a pixel, so it takes no
/// more than a kilobyte for each column.
#[verifier::external_body]
fn shrink(pixels: Vec<u8>, width: u32, height: u32, side: u32) -> (scaled: Vec<u8>)
    requires
        pixels@.len() == 3 * width * height,
        2048 * width <= usize::MAX,
        side <= 64,
    ensures
        scaled@ == shrunk(pixels@, width, height, side),
        scaled@.len() == 3 * side * side,
{
    let picture = RgbImage::from_raw(width, height, pixels).unwrap();
    imageops::resize(&picture, side, side, FilterType::Triangle).into_raw()
}

/// The step of the cube that a component falls on.
pub open spec fn step_of(component: u8) -> nat {
    (component as nat * ACCENT_BINS as nat) / 256
}

/// The bin of the cube that the pixel at `at` falls into.
pub open spec fn bin_of(pixels: Seq<u8>, at: int) -> nat {
    step_of(pixels[3 * at]) * (ACCENT_BINS * ACCENT_BINS) as nat + step_of(pixels[3 * at + 1])
        * ACCENT_BINS as nat + step_of(pixels[3 * at + 2])
}

/// How many of the first `count` pixels fall into `bin`.
pub open spec fn population(pixels: Seq<u8>, bin: nat, count: nat) -> nat
    decreases count,
{
    if count == 0 {
        0
    } else {
        population(pixels, bin, (count - 1) as nat) + if bin_of(pixels, count - 1) == bin {
            1nat
        } else {
            0nat
        }
    }
}

/// One component of the first `count` pixels that fall into `bin`, added up.
pub open spec fn component_sum(pixels: Seq<u8>, bin: nat, component: int, count: nat) -> nat
    decreases count,
{
    if count == 0 {
        0
    } else {
        component_sum(pixels, bin, component, (count - 1) as nat) + if bin_of(pixels, count - 1)
            == bin {
            pixels[3 * (count - 1) + component] as nat
        } else {
            0nat
        }
    }
}

/// A shade of a cover: how many pixels have it, and what it is on average.
#[derive(Clone, Copy, PartialEq, Eq, Structural, Debug)]
pub struct Shade {
    pub count: u32,
    pub mean: Rgb,
}

/// The shade of the pixels that fall into `bin`.
pub open spec fn shade_of(pixels: Seq<u8>, bin: nat) -> Shade {
    let total = pixels.len() / 3;
    let count = population(pixels, bin, total);
    Shade {
        count: count as u32,
        mean: Rgb {
            r: (component_sum(pixels, bin, 0, total) / count) as u8,
            g: (component_sum(pixels, bin, 1, total) / count) as u8,
            b: (component_sum(pixels, bin, 2, total) / count) as u8,
        },
    }
}

/// The shades of the first `bins` bins, without those that no pixel falls into.
pub open spec fn shades(pixels: Seq<u8>, bins: nat) -> Seq<Shade>
    decreases bins,
{
    if bins == 0 {
        Seq::empty()
    } else {
        let bin = (bins - 1) as nat;
        if population(pixels, bin, pixels.len() / 3) == 0 {
            shades(pixels, bin)
        } else {
            shades(pixels, bin).push(shade_of(pixels, bin))
        }
    }
}

/// The number of bins of the cube.
pub const CUBE: usize = 216;

proof fn lemma_sums(pixels: Seq<u8>, bin: nat, component: int, count: nat)
    ensures
        component_sum(pixels, bin, component, count) <= 255 * population(pixels, bin, count),
        population(pixels, bin, count) <= count,
    decreases count,
{
    if count > 0 {
        lemma_sums(pixels, bin, component, (count - 1) as nat);
    }
}

/// Count the shades of a picture of three bytes a pixel in a coarse cube of colours.
pub fn count_shades(pixels: &Vec<u8>) -> (found: Vec<Shade>)
    requires
        pixels@.len() <= 0x100_0000,
        pixels@.len() % 3 == 0,
    ensures
        found@ == shades(pixels@, CUBE as nat),
{
    let total: usize = pixels.len() / 3;
    let mut counts: Vec<u32> = Vec::new();
    let mut reds: Vec<u32> = Vec::new();
    let mut greens: Vec<u32> = Vec::new();
    let mut blues: Vec<u32> = Vec::new();
    for bin in 0..CUBE
        invariant
            counts@.len() == bin,
            reds@.len() == bin,
            greens@.len() == bin,
            blues@.len() == bin,
            forall|j: int| 0 <= j < bin ==> #[trigger] counts@[j] == 0,
            forall|j: int| 0 <= j < bin ==> #[trigger] reds@[j] == 0,
            forall|j: int| 0 <= j < bin ==> #[trigger] greens@[j] == 0,
            forall|j: int| 0 <= j < bin ==> #[trigger] blues@[j] == 0,
    {
        counts.push(0);
        reds.push(0);
        greens.push(0);
        blues.push(0);
    }
    for i in 0..total
        invariant
            total == pixels@.len() / 3,
            pixels@.len() <= 0x100_0000,
            counts@.len() == CUBE,
            reds@.len() == CUBE,
            greens@.len() == CUBE,
            blues@.len() == CUBE,
            forall|j: int|
                0 <= j < CUBE ==> #[trigger] counts@[j] == population(pixels@, j as nat, i as nat),
            forall|j: int|
                0 <= j < CUBE ==> #[trigger] reds@[j] == component_sum(
                    pixels@,
                    j as nat,
                    0,
                    i as nat,
                ),
            forall|j: int|
                0 <= j < CUBE ==> #[trigger] greens@[j] == component_sum(
                    pixels@,
                    j as nat,
                    1,
                    i as nat,
                ),
            forall|j: int|
                0 <= j < CUBE ==> #[trigger] blues@[j] == component_sum(
                    pixels@,
                    j as nat,
                    2,
                    i as nat,
                ),
    {
        let (r, g, b) = (pixels[3 * i], pixels[3 * i + 1], pixels[3 * i + 2]);
        let bin: usize = (r as usize * ACCENT_BINS / 256) * 36 + (g as usize * ACCENT_BINS / 256)
            * ACCENT_BINS + b as usize * ACCENT_BINS / 256;
        proof {
            assert(bin == bin_of(pixels@, i as int));
            assert(bin < CUBE);
            lemma_sums(pixels@, bin as nat, 0, i as nat);
            lemma_sums(pixels@, bin as nat, 1, i as nat);
            lemma_sums(pixels@, bin as nat, 2, i as nat);
        }
        counts.set(bin, counts[bin] + 1);
        reds.set(bin, reds[bin] + r as u32);
        greens.set(bin, greens[bin] + g as u32);
        blues.set(bin, blues[bin] + b as u32);
    }
    let mut found: Vec<Shade> = Vec::new();
    for bin in 0..CUBE
        invariant
            total == pixels@.len() / 3,
            counts@.len() == CUBE,
            reds@.len() == CUBE,
            greens@.len() == CUBE,
            blues@.len() == CUBE,
            forall|j: int|
                0 <= j < CUBE ==> #[trigger] counts@[j] == population(
                    pixels@,
                    j as nat,
                    total as nat,
                ),
            forall|j: int|
                0 <= j < CUBE ==> #[trigger] reds@[j] == component_sum(
                    pixels@,
                    j as nat,
                    0,
                    total as nat,
                ),
            forall|j: int|
                0 <= j < CUBE ==> #[trigger] greens@[j] == component_sum(
                    pixels@,
                    j as nat,
                    1,
                    total as nat,
                ),
            forall|j: int|
                0 <= j < CUBE ==> #[trigger] blues@[j] == component_sum(
                    pixels@,
                    j as nat,
                    2,
                    total as nat,
                ),
            found@ == shades(pixels@, bin as nat),
    {
        let count = counts[bin];
        if count > 0 {
            proof {
                lemma_mean(pixels@, bin as nat, 0, total as nat);
                lemma_mean(pixels@, bin as nat, 1, total as nat);
                lemma_mean(pixels@, bin as nat, 2, total as nat);
            }
            let mean = Rgb {
                r: (reds[bin] / count) as u8,
                g: (greens[bin] / count) as u8,
                b: (blues[bin] / count) as u8,
            };
            found.push(Shade { count, mean });
        }
    }
    found
}

/// An average is a component again.
proof fn lemma_mean(pixels: Seq<u8>, bin: nat, component: int, total: nat)
    requires
        population(pixels, bin, total) > 0,
    ensures
        component_sum(pixels, bin, component, total) / population(pixels, bin, total) <= 255,
{
    lemma_sums(pixels, bin, component, total);
    let sum = component_sum(pixels, bin, component, total);
    let count = population(pixels, bin, total);
    assert(sum / count <= 255) by (nonlinear_arith)
        requires
            sum <= 255 * count,
            count > 0,
    ;
}

/// The shades of a cover, counted in a coarse cube of colours on a small sample of it.
pub fn shades_of(cover: Cover) -> (found: Vec<Shade>)
    requires
        cover.wf(),
        cover.scalable(),
    ensures
        found@ == shades(
            shrunk(cover.pixels@, cover.width, cover.height, ACCENT_SAMPLE),
            CUBE as nat,
        ),
        counted(found@) == 48 * 48,
{
    let sample = shrink(cover.pixels, cover.width, cover.height, ACCENT_SAMPLE);
    assert(sample@.len() == 3 * 48 * 48);
    proof {
        law_every_pixel_is_counted_once(sample@);
    }
    count_shades(&sample)
}

/// Why there are no shades to be had.
pub enum Unreadable {
    /// The file cannot be decoded, for this reason.
    Undecodable(String),
    /// The cover is too wide to be scaled in memory.
    TooWide,
}

/// Whether `found` is what comes of a file that was decoded: the shades of its cover, or why
/// there are none.
pub open spec fn shades_found(
    decoded: Result<Cover, String>,
    found: Result<Vec<Shade>, Unreadable>,
) -> bool {
    match decoded {
        Ok(cover) => if cover.scalable() {
            found matches Ok(found) && found@ == shades(
                shrunk(cover.pixels@, cover.width, cover.height, ACCENT_SAMPLE),
                CUBE as nat,
            )
        } else {
            found matches Err(Unreadable::TooWide)
        },
        Err(reason) => found matches Err(Unreadable::Undecodable(why)) && why@ == reason@,
    }
}

/// The shades of a cover that was decoded, or why there are none.
pub fn shades_of_decoded(decoded: Result<Cover, String>) -> (found: Result<
    Vec<Shade>,
    Unreadable,
>)
    requires
        whole_cover(decoded),
    ensures
        shades_found(decoded, found),
        decoded matches Err(reason) ==> (found matches Err(Unreadable::Undecodable(why)) && why@
            == reason@),
        decoded matches Ok(cover) ==> !(found matches Err(Unreadable::Undecodable(_))) && (found is Ok
            <==> 2048 * cover.width <= usize::MAX),
        found matches Ok(found) ==> counted(found@) == 48 * 48,
{
    match decoded {
        Ok(cover) => if cover.is_scalable() {
            Ok(shades_of(cover))
        } else {
            Err(Unreadable::TooWide)
        },
        Err(reason) => Err(Unreadable::Undecodable(reason)),
    }
}

/// The shades of the cover in a file, or why there are none. Whatever the file is decoded to,
/// this is what comes of it.
pub fn shades_of_file(file: &Vec<u8>) -> (found: Result<Vec<Shade>, Unreadable>)
    ensures
        exists|decoded: Result<Cover, String>| #[trigger]
            shades_found(decoded, found) && whole_cover(decoded),
{
    let decoded = decode(file);
    let ghost read = decoded;
    let found = shades_of_decoded(decoded);
    assert(shades_found(read, found));
    found
}

/// Whether the shade at `index` has the best score: as good as any, and better than every
/// one before it.
pub open spec fn is_best_shade(scores: Seq<Option<u32>>, index: int) -> bool {
    &&& 0 <= index < scores.len()
    &&& scores[index] is Some
    &&& forall|other: int|
        0 <= other < scores.len() && (#[trigger] scores[other]) is Some ==> scores[other]->0
            <= scores[index]->0 && (other < index ==> scores[other]->0 < scores[index]->0)
}

/// The shade to tint a card with: the one with the best score. Shades that make poor
/// highlights whatever their share of the cover have none, and a cover with nothing vivid
/// in it gives `None` rather than a muddy tint.
///
/// A score is given by the bits of a number that is not negative; such bits order as the
/// numbers do.
pub fn best_shade(scores: &Vec<Option<u32>>) -> (best: Option<usize>)
    ensures
        best is None <==> forall|i: int| 0 <= i < scores@.len() ==> (#[trigger] scores@[i]) is None,
        best matches Some(index) ==> is_best_shade(scores@, index as int),
{
    let mut best: Option<usize> = None;
    for i in 0..scores.len()
        invariant
            best is None ==> forall|j: int| 0 <= j < i ==> (#[trigger] scores@[j]) is None,
            best matches Some(index) ==> index < i && scores@[index as int] is Some && forall|
                j: int,
            |
                0 <= j < i && (#[trigger] scores@[j]) is Some ==> scores@[j]->0
                    <= scores@[index as int]->0 && (j < index ==> scores@[j]->0
                    < scores@[index as int]->0),
    {
        if let Some(score) = scores[i] {
            let better = match best {
                None => true,
                Some(index) => match scores[index] {
                    Some(previous) => score > previous,
                    None => true,
                },
            };
            if better {
                best = Some(i);
            }
        }
    }
    best
}

// ---------------------------------------------------------------------------
// What the caches promise.
// ---------------------------------------------------------------------------

/// A cover that was just loaded is ready, whatever had to go for it, and the cache stays
/// within its budget.
pub proof fn law_a_loaded_cover_is_ready<I>(covers: Seq<Loaded<I>>, cover: Loaded<I>)
    ensures
        has_cover(
            last_of(other_covers(covers, cover.url@).push(cover), MAX_LOADED as nat),
            cover.url@,
        ),
        last_of(other_covers(covers, cover.url@).push(cover), MAX_LOADED as nat).len()
            <= MAX_LOADED,
{
    let kept = last_of(other_covers(covers, cover.url@).push(cover), MAX_LOADED as nat);
    assert(kept[kept.len() - 1] == cover);
}

/// Loading one cover makes no other one ready.
pub proof fn law_a_cover_is_only_ready_for_its_own_url<I>(
    covers: Seq<Loaded<I>>,
    cover: Loaded<I>,
    other: Seq<char>,
)
    requires
        other != cover.url@,
        has_cover(
            last_of(other_covers(covers, cover.url@).push(cover), MAX_LOADED as nat),
            other,
        ),
    ensures
        has_cover(covers, other),
{
    let whole = other_covers(covers, cover.url@).push(cover);
    let kept = last_of(whole, MAX_LOADED as nat);
    let keep = of_another_url::<I>(cover.url@);
    let i = choose|i: int| 0 <= i < kept.len() && (#[trigger] kept[i]).url@ == other;
    let at = i + whole.len() - kept.len();
    assert(kept[i] == whole[at]);
    assert(other_covers(covers, cover.url@)[at] == whole[at]);
    covers.lemma_filter_contains_rev(keep, whole[at]);
    let j = choose|j: int| 0 <= j < covers.len() && covers[j] == whole[at];
    assert(covers[j].url@ == other);
}

/// One cover can be held at several sizes at once: scaling it for one place does not throw
/// away what another place shows, as long as there is room for both.
pub proof fn law_one_cover_is_held_at_several_sizes(
    grids: Seq<Scaled>,
    grid: Scaled,
    size: Vec2,
)
    requires
        grids.len() < MAX_SCALED,
        size != grid.size,
        has_grid(grids, grid.url@, size),
    ensures
        ({
            let kept = last_of(
                other_grids(grids, grid.url@, grid.size).push(grid),
                MAX_SCALED as nat,
            );
            &&& has_grid(kept, grid.url@, size)
            &&& has_grid(kept, grid.url@, grid.size)
            &&& kept.len() <= MAX_SCALED
        }),
{
    let keep = of_another_kind(grid.url@, grid.size);
    let others = other_grids(grids, grid.url@, grid.size);
    grids.lemma_filter_len(keep);
    let kept = last_of(others.push(grid), MAX_SCALED as nat);
    assert(kept == others.push(grid));
    let i = choose|i: int|
        0 <= i < grids.len() && (#[trigger] grids[i]).url@ == grid.url@ && grids[i].size == size;
    grids.lemma_filter_contains(keep, i);
    let j = choose|j: int| 0 <= j < others.len() && others[j] == grids[i];
    assert(kept[j].url@ == grid.url@ && kept[j].size == size);
    assert(kept[kept.len() - 1] == grid);
}

/// What is on screen stays: drawing a grid makes it the last to go, so the one that has to go
/// for a new grid is the one that was used longest ago.
pub proof fn law_a_grid_that_is_used_is_kept(
    grids: Seq<Scaled>,
    url: Seq<char>,
    size: Vec2,
    new: Scaled,
)
    requires
        grids.len() == MAX_SCALED,
        distinct_grids(grids),
        has_grid(grids, url, size),
        !has_grid(grids, new.url@, new.size),
    ensures
        ({
            let used = used_grids(grids, url, size);
            let kept = last_of(
                other_grids(used, new.url@, new.size).push(new),
                MAX_SCALED as nat,
            );
            &&& kept == used.skip(1).push(new)
            &&& has_grid(kept, url, size)
            &&& has_grid(kept, new.url@, new.size)
            &&& kept.len() == MAX_SCALED
        }),
{
    let at = grid_at(grids, url, size);
    let used = used_grids(grids, url, size);
    assert(0 <= at < grids.len() && grids[at].url@ == url && grids[at].size == size);
    lemma_one_goes(grids, of_another_kind(url, size), at);
    let keep = of_another_kind(new.url@, new.size);
    assert forall|i: int| 0 <= i < grids.len() implies keep(#[trigger] grids[i]) by {}
    lemma_oldest_goes(grids, keep, at, new);
    let kept = used.skip(1).push(new);
    assert(kept[kept.len() - 2] == grids[at]);
    assert(kept[kept.len() - 1] == new);
}

/// The same holds of covers: drawing one makes it the last to go.
pub proof fn law_a_cover_that_is_used_is_kept<I>(
    covers: Seq<Loaded<I>>,
    url: Seq<char>,
    new: Loaded<I>,
)
    requires
        covers.len() == MAX_LOADED,
        distinct_covers(covers),
        has_cover(covers, url),
        !has_cover(covers, new.url@),
    ensures
        ({
            let used = used_covers(covers, url);
            let kept = last_of(other_covers(used, new.url@).push(new), MAX_LOADED as nat);
            &&& kept == used.skip(1).push(new)
            &&& has_cover(kept, url)
            &&& has_cover(kept, new.url@)
            &&& kept.len() == MAX_LOADED
        }),
{
    let at = cover_at(covers, url);
    let used = used_covers(covers, url);
    assert(0 <= at < covers.len() && covers[at].url@ == url);
    lemma_one_goes(covers, of_another_url(url), at);
    let keep = of_another_url::<I>(new.url@);
    assert forall|i: int| 0 <= i < covers.len() implies keep(#[trigger] covers[i]) by {}
    lemma_oldest_goes(covers, keep, at, new);
    let kept = used.skip(1).push(new);
    assert(kept[kept.len() - 2] == covers[at]);
    assert(kept[kept.len() - 1] == new);
}

/// Of a full list whose item at `at` was used, the first other one goes for a new item.
proof fn lemma_oldest_goes<T>(list: Seq<T>, keep: spec_fn(T) -> bool, at: int, new: T)
    requires
        0 <= at < list.len(),
        forall|i: int| 0 <= i < list.len() ==> keep(#[trigger] list[i]),
    ensures
        ({
            let used = list.remove(at).push(list[at]);
            last_of(used.filter(keep).push(new), list.len()) == used.skip(1).push(new)
        }),
{
    let used = list.remove(at).push(list[at]);
    assert forall|i: int| 0 <= i < used.len() implies keep(#[trigger] used[i]) by {
        if i == used.len() - 1 {
            assert(used[i] == list[at]);
        } else if i < at {
            assert(used[i] == list[i]);
        } else {
            assert(used[i] == list[i + 1]);
        }
    }
    lemma_all_stay(used, keep);
    assert(last_of(used.push(new), list.len()) =~= used.skip(1).push(new));
}

/// Covers are queued once: asking for the same ones again fetches nothing.
pub proof fn law_covers_are_queued_once(queued: Seq<Seq<char>>, urls: Seq<Seq<char>>)
    ensures
        newly_queued(queued + newly_queued(queued, urls), urls) == Seq::<Seq<char>>::empty(),
        newly_queued(queued, urls).no_duplicates(),
        forall|i: int|
            0 <= i < urls.len() ==> (queued + newly_queued(queued, urls)).contains(
                #[trigger] urls[i],
            ),
{
    lemma_newly_queued(queued, urls);
    let all = queued + newly_queued(queued, urls);
    assert forall|i: int| 0 <= i < urls.len() implies all.contains(#[trigger] urls[i]) by {
        lemma_concat_contains(queued, newly_queued(queued, urls), urls[i]);
    }
    lemma_nothing_new(all, urls);
}

proof fn lemma_newly_queued(queued: Seq<Seq<char>>, urls: Seq<Seq<char>>)
    ensures
        newly_queued(queued, urls).no_duplicates(),
        forall|i: int|
            0 <= i < urls.len() ==> queued.contains(#[trigger] urls[i]) || newly_queued(
                queued,
                urls,
            ).contains(urls[i]),
    decreases urls.len(),
{
    if urls.len() > 0 {
        let fewer = urls.drop_last();
        let before = newly_queued(queued, fewer);
        let after = newly_queued(queued, urls);
        lemma_newly_queued(queued, fewer);
        assert forall|i: int| 0 <= i < urls.len() implies queued.contains(#[trigger] urls[i])
            || after.contains(urls[i]) by {
            if i < fewer.len() {
                assert(fewer[i] == urls[i]);
                if before.contains(urls[i]) {
                    let j = choose|j: int| 0 <= j < before.len() && before[j] == urls[i];
                    assert(after[j] == urls[i]);
                }
            } else if !queued.contains(urls[i]) && !before.contains(urls[i]) {
                assert(after[after.len() - 1] == urls[i]);
            }
        }
    }
}

proof fn lemma_nothing_new(queued: Seq<Seq<char>>, urls: Seq<Seq<char>>)
    requires
        forall|i: int| 0 <= i < urls.len() ==> queued.contains(#[trigger] urls[i]),
    ensures
        newly_queued(queued, urls) == Seq::<Seq<char>>::empty(),
    decreases urls.len(),
{
    if urls.len() > 0 {
        let fewer = urls.drop_last();
        assert forall|i: int| 0 <= i < fewer.len() implies queued.contains(
            #[trigger] fewer[i],
        ) by {
            assert(fewer[i] == urls[i]);
        }
        lemma_nothing_new(queued, fewer);
        assert(queued.contains(urls[urls.len() - 1]));
    }
}

/// Whether a block element paints the quarter of its cell that is in the left or right
/// column and in the upper or lower row.
pub open spec fn paints(glyph: char, right: bool, lower: bool) -> bool {
    match (right, lower) {
        (false, false) => glyph == '\u{2598}' || glyph == '\u{2580}' || glyph == '\u{258c}' || glyph
            == '\u{259a}' || glyph == '\u{259b}' || glyph == '\u{259c}' || glyph == '\u{2599}'
            || glyph == '\u{2588}',
        (true, false) => glyph == '\u{259d}' || glyph == '\u{2580}' || glyph == '\u{2590}' || glyph
            == '\u{259e}' || glyph == '\u{259b}' || glyph == '\u{259c}' || glyph == '\u{259f}'
            || glyph == '\u{2588}',
        (false, true) => glyph == '\u{2596}' || glyph == '\u{2584}' || glyph == '\u{258c}' || glyph
            == '\u{259e}' || glyph == '\u{259b}' || glyph == '\u{2599}' || glyph == '\u{259f}'
            || glyph == '\u{2588}',
        (true, true) => glyph == '\u{2597}' || glyph == '\u{2584}' || glyph == '\u{2590}' || glyph
            == '\u{259a}' || glyph == '\u{259c}' || glyph == '\u{2599}' || glyph == '\u{259f}'
            || glyph == '\u{2588}',
    }
}

/// A glyph paints just the subpixels of its mask, and the mask is the sum of the powers of
/// two that its subpixels stand for; no two masks have the same glyph.
pub proof fn law_a_glyph_paints_its_mask(mask: usize, other: usize)
    requires
        mask < 16,
        other < 16,
    ensures
        ({
            let glyph = quadrant_glyph(mask);
            &&& is_front(mask, 0) <==> paints(glyph, false, false)
            &&& is_front(mask, 1) <==> paints(glyph, true, false)
            &&& is_front(mask, 2) <==> paints(glyph, false, true)
            &&& is_front(mask, 3) <==> paints(glyph, true, true)
        }),
        mask == (if is_front(mask, 0) {
            1int
        } else {
            0
        }) + (if is_front(mask, 1) {
            2int
        } else {
            0
        }) + (if is_front(mask, 2) {
            4int
        } else {
            0
        }) + (if is_front(mask, 3) {
            8int
        } else {
            0
        }),
        quadrant_glyph(mask) == quadrant_glyph(other) <==> mask == other,
{
}

/// The best split is one: nothing costs less, of several that cost as little it has the
/// largest mask, and a cell that nothing is worth splitting for stays solid.
pub proof fn law_the_best_split_costs_least(costs: Seq<u32>, mask: int, other: int)
    requires
        costs.len() == 16,
        is_best_split(costs, mask),
        1 <= other < 16,
    ensures
        costs[other] < COST_LIMIT ==> costs[mask] <= costs[other],
        costs[other] < COST_LIMIT && costs[mask] == costs[other] ==> other <= mask,
        is_best_split(costs, other) ==> other == mask,
        (forall|i: int| 1 <= i < 16 ==> #[trigger] costs[i] >= COST_LIMIT) ==> mask == 15,
{
    if is_best_split(costs, other) {
        if costs[mask] < COST_LIMIT {
            assert(costs[other] <= costs[mask]);
        }
        if costs[other] < COST_LIMIT {
            assert(costs[mask] <= costs[other]);
        }
    }
}

/// The best shade is one: no other scores more, and of several that score as much it comes
/// first.
pub proof fn law_the_best_shade_scores_most(scores: Seq<Option<u32>>, index: int, other: int)
    requires
        is_best_shade(scores, index),
        0 <= other < scores.len(),
    ensures
        scores[other] matches Some(score) ==> score <= scores[index]->0,
        scores[other] == scores[index] ==> index <= other,
        is_best_shade(scores, other) ==> other == index,
{
    if is_best_shade(scores, other) {
        assert(scores[index]->0 <= scores[other]->0);
        assert(scores[other]->0 <= scores[index]->0);
    }
}

/// A grid is printed row by row: the cell in a column of a row stands that many columns and
/// rows behind the offset.
pub proof fn law_cells_go_row_by_row(
    cells: Seq<Cell>,
    size: Vec2,
    offset: Vec2,
    column: int,
    row: int,
)
    requires
        0 <= column < size.x,
        0 <= row < size.y,
        offset.x + size.x <= usize::MAX,
        offset.y + size.y <= usize::MAX,
    ensures
        ({
            let placed = placed_cells(cells, size, offset);
            let at = row * size.x + column;
            &&& placed.len() == size.x * size.y
            &&& 0 <= at < placed.len()
            &&& placed[at].x == offset.x + column
            &&& placed[at].y == offset.y + row
            &&& placed[at].cell == cells[at]
        }),
{
    let at = row * size.x + column;
    assert(0 <= at < size.x * size.y) by (nonlinear_arith)
        requires
            at == row * size.x + column,
            0 <= column < size.x,
            0 <= row < size.y,
    ;
    vstd::arithmetic::div_mod::lemma_fundamental_div_mod_converse(
        at,
        size.x as int,
        row,
        column,
    );
}

/// Queueing in two goes is queueing at once: what the first go queued is not queued by the
/// second. One that is new is queued, one that is not is passed over.
pub proof fn law_covers_are_queued_in_order(
    queued: Seq<Seq<char>>,
    one: Seq<Seq<char>>,
    other: Seq<Seq<char>>,
    url: Seq<char>,
)
    ensures
        newly_queued(queued, one + other) == newly_queued(queued, one) + newly_queued(
            queued + newly_queued(queued, one),
            other,
        ),
        queued.contains(url) ==> newly_queued(queued, seq![url]).len() == 0,
        !queued.contains(url) ==> newly_queued(queued, seq![url]) == seq![url],
    decreases other.len(),
{
    let alone = seq![url];
    assert(alone.drop_last() =~= Seq::<Seq<char>>::empty());
    assert(alone.last() == url);
    assert(newly_queued(queued, alone.drop_last()) =~= Seq::<Seq<char>>::empty());
    if !queued.contains(url) {
        assert(newly_queued(queued, alone) =~= seq![url]);
    }
    let first = newly_queued(queued, one);
    if other.len() == 0 {
        assert(one + other =~= one);
        assert(first + newly_queued(queued + first, other) =~= first);
    } else {
        let fewer = other.drop_last();
        let last = other.last();
        law_covers_are_queued_in_order(queued, one, fewer, url);
        assert((one + other).drop_last() =~= one + fewer);
        assert((one + other).last() == last);
        let second = newly_queued(queued + first, fewer);
        lemma_concat_contains(first, second, last);
        lemma_concat_contains(queued, first, last);
        assert(newly_queued(queued, one + other) =~= first + newly_queued(queued + first, other));
    }
}

/// Each component is sorted into one of six steps of equal size, and two pixels share a bin
/// exactly where they share all three steps.
pub proof fn law_near_shades_share_a_bin(pixels: Seq<u8>, one: int, other: int, component: u8)
    ensures
        step_of(component) < 6,
        256 * step_of(component) <= 6 * component < 256 * (step_of(component) + 1),
        bin_of(pixels, one) < 6 * 6 * 6,
        bin_of(pixels, one) == bin_of(pixels, other) <==> step_of(pixels[3 * one]) == step_of(
            pixels[3 * other],
        ) && step_of(pixels[3 * one + 1]) == step_of(pixels[3 * other + 1]) && step_of(
            pixels[3 * one + 2],
        ) == step_of(pixels[3 * other + 2]),
{
}

proof fn lemma_sum_in_step(
    pixels: Seq<u8>,
    bin: nat,
    component: int,
    count: nat,
    low: nat,
    high: nat,
)
    requires
        forall|at: int|
            0 <= at < count && #[trigger] bin_of(pixels, at) == bin ==> low <= pixels[3 * at
                + component] <= high,
    ensures
        low * population(pixels, bin, count) <= component_sum(pixels, bin, component, count)
            <= high * population(pixels, bin, count),
    decreases count,
{
    if count == 0 {
        assert(low * 0 == 0 && high * 0 == 0) by (nonlinear_arith);
    } else {
        let last = count - 1;
        lemma_sum_in_step(pixels, bin, component, last as nat, low, high);
        let before = population(pixels, bin, last as nat);
        if bin_of(pixels, last) == bin {
            assert(low * (before + 1) == low * before + low) by (nonlinear_arith);
            assert(high * (before + 1) == high * before + high) by (nonlinear_arith);
        }
    }
}

proof fn lemma_mean_in_step(pixels: Seq<u8>, bin: nat, component: int, total: nat, step: nat)
    requires
        population(pixels, bin, total) > 0,
        step < 6,
        forall|at: int|
            0 <= at < total && #[trigger] bin_of(pixels, at) == bin ==> step_of(
                pixels[3 * at + component],
            ) == step,
    ensures
        component_sum(pixels, bin, component, total) / population(pixels, bin, total) <= 255,
        step_of(
            (component_sum(pixels, bin, component, total) / population(pixels, bin, total)) as u8,
        ) == step,
{
    let low = ((256 * step + 5) / 6) as nat;
    let high = ((256 * (step + 1) - 1) / 6) as nat;
    let count = population(pixels, bin, total);
    let sum = component_sum(pixels, bin, component, total);
    assert forall|at: int| 0 <= at < total && #[trigger] bin_of(pixels, at) == bin implies low
        <= pixels[3 * at + component] <= high by {
        assert(step_of(pixels[3 * at + component]) == step);
    }
    lemma_sum_in_step(pixels, bin, component, total, low, high);
    assert(low <= sum / count <= high) by (nonlinear_arith)
        requires
            low * count <= sum <= high * count,
            count > 0,
    ;
}

/// A shade belongs to its bin: the colour it is on average is sorted into the bin that its
/// pixels were sorted into, each component by its own step.
pub proof fn law_a_shade_belongs_to_its_bin(pixels: Seq<u8>, bin: nat)
    requires
        pixels.len() % 3 == 0,
        population(pixels, bin, pixels.len() / 3) > 0,
    ensures
        ({
            let mean = shade_of(pixels, bin).mean;
            bin == 36 * step_of(mean.r) + 6 * step_of(mean.g) + step_of(mean.b)
        }),
{
    let total = pixels.len() / 3;
    lemma_some_pixel(pixels, bin, total);
    let one = choose|at: int| 0 <= at < total && #[trigger] bin_of(pixels, at) == bin;
    let (red, green, blue) = (
        step_of(pixels[3 * one]),
        step_of(pixels[3 * one + 1]),
        step_of(pixels[3 * one + 2]),
    );
    assert forall|at: int| 0 <= at < total && #[trigger] bin_of(pixels, at) == bin implies step_of(
        pixels[3 * at],
    ) == red && step_of(pixels[3 * at + 1]) == green && step_of(pixels[3 * at + 2]) == blue by {
        law_near_shades_share_a_bin(pixels, one, at, 0);
    }
    assert(forall|at: int|
        0 <= at < total && #[trigger] bin_of(pixels, at) == bin ==> step_of(pixels[3 * at + 0])
            == red);
    lemma_mean_in_step(pixels, bin, 0, total, red);
    lemma_mean_in_step(pixels, bin, 1, total, green);
    lemma_mean_in_step(pixels, bin, 2, total, blue);
}

proof fn lemma_some_pixel(pixels: Seq<u8>, bin: nat, count: nat)
    requires
        population(pixels, bin, count) > 0,
    ensures
        exists|at: int| 0 <= at < count && #[trigger] bin_of(pixels, at) == bin,
    decreases count,
{
    if bin_of(pixels, count - 1) != bin {
        lemma_some_pixel(pixels, bin, (count - 1) as nat);
        let at = choose|at: int|
            0 <= at < count - 1 && #[trigger] bin_of(pixels, at) == bin;
        assert(bin_of(pixels, at) == bin);
    }
}

/// The pixels of all shades together.
pub open spec fn counted(found: Seq<Shade>) -> nat
    decreases found.len(),
{
    if found.len() == 0 {
        0
    } else {
        counted(found.drop_last()) + found.last().count as nat
    }
}

/// How many of the first `count` pixels fall into a bin below `bins`.
spec fn population_below(pixels: Seq<u8>, bins: nat, count: nat) -> nat
    decreases bins,
{
    if bins == 0 {
        0
    } else {
        population_below(pixels, (bins - 1) as nat, count) + population(
            pixels,
            (bins - 1) as nat,
            count,
        )
    }
}

proof fn lemma_population_below(pixels: Seq<u8>, bins: nat, count: nat)
    ensures
        count > 0 ==> population_below(pixels, bins, count) == population_below(
            pixels,
            bins,
            (count - 1) as nat,
        ) + (if bin_of(pixels, count - 1) < bins {
            1int
        } else {
            0
        }),
        count == 0 ==> population_below(pixels, bins, count) == 0,
    decreases bins,
{
    if bins > 0 {
        lemma_population_below(pixels, (bins - 1) as nat, count);
    }
}

proof fn lemma_all_counted(pixels: Seq<u8>, count: nat)
    ensures
        population_below(pixels, 216, count) == count,
    decreases count,
{
    lemma_population_below(pixels, 216, count);
    if count > 0 {
        law_near_shades_share_a_bin(pixels, count - 1, count - 1, 0);
        lemma_all_counted(pixels, (count - 1) as nat);
    }
}

proof fn lemma_counted(pixels: Seq<u8>, bins: nat)
    requires
        pixels.len() / 3 <= u32::MAX,
    ensures
        counted(shades(pixels, bins)) == population_below(pixels, bins, pixels.len() / 3),
    decreases bins,
{
    if bins > 0 {
        let bin = (bins - 1) as nat;
        lemma_counted(pixels, bin);
        lemma_sums(pixels, bin, 0, pixels.len() / 3);
        if population(pixels, bin, pixels.len() / 3) > 0 {
            let found = shades(pixels, bins);
            assert(found.drop_last() =~= shades(pixels, bin));
            assert(found.last() == shade_of(pixels, bin));
        }
    }
}

/// Every pixel is counted, and counted once: the shades of a cover have as many pixels
/// between them as the cover has.
pub proof fn law_every_pixel_is_counted_once(pixels: Seq<u8>)
    requires
        pixels.len() / 3 <= u32::MAX,
    ensures
        counted(shades(pixels, CUBE as nat)) == pixels.len() / 3,
{
    lemma_counted(pixels, 216);
    lemma_all_counted(pixels, pixels.len() / 3);
}

/// Up to twelve covers and twenty-four grids are held at once: while there are fewer, a new
/// one takes the place of none but its own older self, and there are never more.
pub proof fn law_nothing_goes_while_there_is_room<I>(
    covers: Seq<Loaded<I>>,
    cover: Loaded<I>,
    i: int,
    grids: Seq<Scaled>,
    grid: Scaled,
    j: int,
)
    requires
        0 <= i < covers.len(),
        covers[i].url@ != cover.url@,
        0 <= j < grids.len(),
        grids[j].url@ != grid.url@ || grids[j].size != grid.size,
    ensures
        ({
            let kept = last_of(other_covers(covers, cover.url@).push(cover), MAX_LOADED as nat);
            &&& covers.len() < 12 ==> kept.contains(covers[i])
            &&& kept.len() <= 12
            &&& kept.last() == cover
        }),
        ({
            let kept = last_of(
                other_grids(grids, grid.url@, grid.size).push(grid),
                MAX_SCALED as nat,
            );
            &&& grids.len() < 24 ==> kept.contains(grids[j])
            &&& kept.len() <= 24
            &&& kept.last() == grid
        }),
{
    let of_cover = of_another_url::<I>(cover.url@);
    let others = other_covers(covers, cover.url@);
    covers.lemma_filter_len(of_cover);
    covers.lemma_filter_contains(of_cover, i);
    if covers.len() < 12 {
        let at = choose|at: int| 0 <= at < others.len() && others[at] == covers[i];
        let kept = last_of(others.push(cover), MAX_LOADED as nat);
        assert(kept == others.push(cover));
        assert(kept[at] == covers[i]);
    }
    let of_grid = of_another_kind(grid.url@, grid.size);
    let rest = other_grids(grids, grid.url@, grid.size);
    grids.lemma_filter_len(of_grid);
    grids.lemma_filter_contains(of_grid, j);
    if grids.len() < 24 {
        let at = choose|at: int| 0 <= at < rest.len() && rest[at] == grids[j];
        let kept = last_of(rest.push(grid), MAX_SCALED as nat);
        assert(kept == rest.push(grid));
        assert(kept[at] == grids[j]);
    }
}

} // verus!
