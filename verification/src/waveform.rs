//! The loudness of a track over its length, learned by listening to it.
//!
//! Nothing hands out a waveform, so this builds one the only way a player can: while a
//! track plays, the level coming out of the audio tap is written into the bucket for the
//! position it was heard at. The first listen fills the shape in behind the playhead; every
//! later listen has it ready up front, and the progress bar can be drawn as the track's own
//! shape rather than as a plain line.
//!
//! A level is given by the bits of a number that is not negative; such bits order as the
//! numbers do.

use vstd::prelude::*;

use crate::model::{Playable, PlayerEvent};
#[allow(unused_imports)]
use crate::model::PlayableModel;
use crate::stamps;
use crate::table;
use crate::table::Table;

verus! {

/// Buckets a track is divided into. At four minutes that is a bucket per second, which is
/// finer than any terminal is wide.
pub const BUCKETS: usize = 256;
/// Tracks kept. Each is a kilobyte of levels, so this is a small file.
pub const MAX_TRACKS: usize = 512;
/// How often the shapes learned so far are written out, in nanoseconds. Often enough that a
/// crash costs one track, rare enough that it is not in the way of playback.
pub const SAVE_EVERY: u128 = 60_000_000_000;
/// A bucket that is no louder than this counts as never having been heard, and is drawn as
/// unknown rather than as silence.
pub const UNHEARD: u32 = 0x3400_0000;
/// The loudest that a level can be: the bits of one.
pub const FULL: u32 = 0x3f80_0000;

/// What is known of one track.
pub struct Entry {
    /// Peak level heard in each bucket, zero where the track has not played yet.
    pub levels: Vec<u32>,
    /// Bumped whenever the track is played, so trimming drops the least used.
    pub used: u64,
}

/// An [`Entry`] as the contracts speak of it.
#[verifier::ext_equal]
pub struct EntryModel {
    pub levels: Seq<u32>,
    pub used: u64,
}

impl View for Entry {
    type V = EntryModel;

    open spec fn view(&self) -> EntryModel {
        EntryModel { levels: self.levels@, used: self.used }
    }
}

/// The entries of a table, as the contracts speak of them.
pub open spec fn entry_models(entries: Map<Seq<char>, Entry>) -> Map<Seq<char>, EntryModel> {
    entries.map_values(|entry: Entry| entry@)
}

/// One entry with its track, as it is kept between runs.
pub struct Stored {
    pub id: String,
    pub levels: Vec<u32>,
    pub used: u64,
}

/// The bucket that a position falls in: so many parts of the length, the end of a track in
/// the last one rather than past it. A track with no length has none.
pub open spec fn bucket_at(position: nat, duration: nat) -> Option<int> {
    if duration == 0 {
        None
    } else {
        Some(vstd::math::min((position * BUCKETS as nat / duration) as int, BUCKETS - 1))
    }
}

/// Which bucket a position falls in, or `None` for a track with no length, which is a live
/// stream or an item still loading.
pub fn bucket_of(position_ms: u128, duration_ms: u32) -> (bucket: Option<usize>)
    ensures
        bucket is Some <==> bucket_at(position_ms as nat, duration_ms as nat) is Some,
        bucket matches Some(bucket) ==> bucket == bucket_at(
            position_ms as nat,
            duration_ms as nat,
        )->0,
        bucket matches Some(bucket) ==> bucket < BUCKETS,
{
    if duration_ms == 0 {
        return None;
    }
    if position_ms >= duration_ms as u128 {
        proof {
            assert(position_ms * 256 / duration_ms as int >= 256) by (nonlinear_arith)
                requires
                    position_ms >= duration_ms,
                    duration_ms > 0,
            ;
        }
        return Some(BUCKETS - 1);
    }
    let bucket: u128 = position_ms * 256 / duration_ms as u128;
    proof {
        assert(bucket < 256) by (nonlinear_arith)
            requires
                bucket == position_ms * 256 / duration_ms as int,
                position_ms < duration_ms,
                duration_ms > 0,
        ;
    }
    Some(bucket as usize)
}

/// A level, or the loudest one where it is louder than that.
pub open spec fn clamped(level: u32) -> u32 {
    if level > FULL {
        FULL
    } else {
        level
    }
}

/// Whether no level is louder than it can be.
pub open spec fn within(levels: Seq<u32>) -> bool {
    forall|i: int| 0 <= i < levels.len() ==> #[trigger] levels[i] <= FULL
}

/// Whether no track is louder anywhere than it can be.
pub open spec fn all_within(entries: Map<Seq<char>, EntryModel>) -> bool {
    forall|id: Seq<char>| entries.contains_key(id) ==> within((#[trigger] entries[id]).levels)
}

/// As many levels as there are buckets: those of the list, then silence.
pub open spec fn padded(levels: Seq<u32>) -> Seq<u32> {
    Seq::new(
        BUCKETS as nat,
        |i: int|
            if i < levels.len() {
                levels[i]
            } else {
                0
            },
    )
}

/// The levels of a track, where it is known.
pub open spec fn levels_of(entries: Map<Seq<char>, EntryModel>, id: Seq<char>) -> Seq<u32> {
    if entries.contains_key(id) {
        entries[id].levels
    } else {
        Seq::empty()
    }
}

/// The levels after `level` was heard in `bucket`: the loudest one heard there is kept.
pub open spec fn heard(levels: Seq<u32>, bucket: int, level: u32) -> Seq<u32> {
    let whole = padded(levels);
    whole.update(
        bucket,
        if clamped(level) > whole[bucket] {
            clamped(level)
        } else {
            whole[bucket]
        },
    )
}

/// Whether `after` is `before` cut down to the budget: it has lost no more than it had to,
/// and nothing that it lost was used later than anything that it kept. Of two entries that
/// were used at the same time either may go.
pub open spec fn trimmed_to(
    before: Map<Seq<char>, EntryModel>,
    after: Map<Seq<char>, EntryModel>,
) -> bool {
    &&& after.submap_of(before)
    &&& after.len() == vstd::math::min(before.len() as int, MAX_TRACKS as int)
    &&& forall|lost: Seq<char>, kept: Seq<char>|
        before.contains_key(lost) && !after.contains_key(lost) && after.contains_key(kept)
            ==> #[trigger] before[lost].used <= #[trigger] after[kept].used
}

/// Whether the shapes are worth writing out at `now`.
pub open spec fn save_due(last_save: Option<u128>, now: u128) -> bool {
    last_save matches Some(at) ==> now - at >= SAVE_EVERY
}

/// The loudest of the levels from `first` on, up to `last`.
pub open spec fn peak(levels: Seq<u32>, first: int, last: int) -> u32
    decreases last - first,
{
    if first >= last {
        0
    } else {
        let before = peak(levels, first, last - 1);
        if levels[last - 1] > before {
            levels[last - 1]
        } else {
            before
        }
    }
}

/// The first bucket of a column, out of `width`.
pub open spec fn first_bucket(buckets: nat, width: nat, column: nat) -> int {
    (column * buckets / width) as int
}

/// The end of the buckets of a column: the smallest number of them that reaches the next
/// column, and at least one.
pub open spec fn end_bucket(buckets: nat, width: nat, column: nat) -> int {
    let end = ((column + 1) * buckets + width - 1) / width as int;
    vstd::math::min(
        vstd::math::max(end, first_bucket(buckets, width, column) + 1),
        buckets as int,
    )
}

/// What is shown of a level.
pub open spec fn shown(level: u32) -> Option<u32> {
    if level > UNHEARD {
        Some(level)
    } else {
        None
    }
}

/// The shape of a track resampled to `width` columns.
pub open spec fn resampled(levels: Seq<u32>, width: nat) -> Seq<Option<u32>> {
    Seq::new(
        width,
        |column: int|
            shown(
                peak(
                    levels,
                    first_bucket(levels.len(), width, column as nat),
                    end_bucket(levels.len(), width, column as nat),
                ),
            ),
    )
}

/// Whether anything of a track has been heard.
pub open spec fn any_heard(levels: Seq<u32>) -> bool {
    exists|i: int| 0 <= i < levels.len() && #[trigger] levels[i] > UNHEARD
}

/// The shape that is drawn of a track, where anything is known of it.
pub open spec fn shape_of(
    entries: Map<Seq<char>, EntryModel>,
    id: Seq<char>,
    width: nat,
) -> Option<Seq<Option<u32>>> {
    let levels = levels_of(entries, id);
    if width == 0 || !any_heard(levels) {
        None
    } else {
        Some(resampled(levels, width))
    }
}

/// The entries after `list` was restored into them, a later entry in place of an earlier
/// one.
pub open spec fn restored(
    entries: Map<Seq<char>, EntryModel>,
    list: Seq<Stored>,
) -> Map<Seq<char>, EntryModel>
    decreases list.len(),
{
    if list.len() == 0 {
        entries
    } else {
        restored(entries, list.drop_last()).insert(
            list.last().id@,
            EntryModel {
                levels: list.last().levels@.map_values(|level: u32| clamped(level)),
                used: list.last().used,
            },
        )
    }
}

/// The clock after `list` was restored: no entry was used after it.
pub open spec fn restored_clock(clock: u64, list: Seq<Stored>) -> u64
    decreases list.len(),
{
    if list.len() == 0 {
        clock
    } else {
        let before = restored_clock(clock, list.drop_last());
        if list.last().used > before {
            list.last().used
        } else {
            before
        }
    }
}

/// When each entry was used last.
pub open spec fn uses(entries: Map<Seq<char>, EntryModel>) -> Map<Seq<char>, u64> {
    entries.map_values(|entry: EntryModel| entry.used)
}

/// The entries with their stamps counted anew, in the order in which they were used.
pub open spec fn restamped(entries: Map<Seq<char>, EntryModel>) -> Map<Seq<char>, EntryModel> {
    entries.map_values(
        |entry: EntryModel|
            EntryModel { used: stamps::rank(uses(entries), entry.used) as u64, ..entry },
    )
}

/// Restored entries as they are taken over: where the clock would have no room left to go on
/// counting, their stamps are counted anew.
pub open spec fn settled(
    entries: Map<Seq<char>, EntryModel>,
    clock: u64,
) -> Map<Seq<char>, EntryModel> {
    if clock > stamps::LATEST {
        restamped(entries)
    } else {
        entries
    }
}

/// The clock that goes with [`settled`] entries.
pub open spec fn settled_clock(entries: Map<Seq<char>, EntryModel>, clock: u64) -> u64 {
    if clock > stamps::LATEST {
        entries.len() as u64
    } else {
        clock
    }
}

/// Shapes for every track heard.
pub struct WaveformStore {
    tracks: Table<Entry>,
    clock: u64,
    last_save: Option<u128>,
}

impl View for WaveformStore {
    type V = Map<Seq<char>, EntryModel>;

    closed spec fn view(&self) -> Map<Seq<char>, EntryModel> {
        entry_models(self.tracks@)
    }
}

impl WaveformStore {
    /// Every track is known once, and none is louder anywhere than it can be.
    pub closed spec fn wf(&self) -> bool {
        self.tracks.wf() && all_within(entry_models(self.tracks@))
    }

    /// How often anything was heard.
    pub closed spec fn clock(&self) -> u64 {
        self.clock
    }

    /// When the shapes were written out last.
    pub closed spec fn last_save(&self) -> Option<u128> {
        self.last_save
    }

    /// A store that knows nothing.
    pub fn new() -> (store: Self)
        ensures
            store.wf(),
            store.clock() == 0,
            store.last_save() is None,
            store@ == Map::<Seq<char>, EntryModel>::empty(),
    {
        let store = WaveformStore { tracks: Table::new(), clock: 0, last_save: None };
        assert(store@ =~= Map::<Seq<char>, EntryModel>::empty());
        store
    }

    /// How often anything was heard.
    pub fn ticks(&self) -> (count: u64)
        ensures
            count == self.clock(),
    {
        self.clock
    }

    /// The number of tracks that are known.
    pub fn len(&self) -> (count: usize)
        requires
            self.wf(),
        ensures
            count == self@.len(),
    {
        proof {
            lemma_same_len(self.tracks@);
        }
        self.tracks.len()
    }

    /// Note that `level` was heard `position_ms` into a track of `duration_ms`. Answers
    /// whether the shapes are worth writing out now.
    ///
    /// The loudest level heard in a bucket is the one kept: a waveform is drawn from peaks,
    /// and averaging would flatten every track towards the same line. No level counts as
    /// louder than one.
    pub fn record(
        &mut self,
        id: &str,
        position_ms: u128,
        duration_ms: u32,
        level: u32,
        now: u128,
    ) -> (save: bool)
        requires
            old(self).wf(),
            old(self).clock() < u64::MAX,
        ensures
            final(self).wf(),
            match bucket_at(position_ms as nat, duration_ms as nat) {
                None => !save && final(self)@ == old(self)@ && final(self).clock() == old(
                    self,
                ).clock() && final(self).last_save() == old(self).last_save(),
                Some(bucket) => {
                    &&& final(self).clock() == old(self).clock() + 1
                    &&& trimmed_to(
                        old(self)@.insert(
                            id@,
                            EntryModel {
                                levels: heard(levels_of(old(self)@, id@), bucket, level),
                                used: (old(self).clock() + 1) as u64,
                            },
                        ),
                        final(self)@,
                    )
                    &&& save == save_due(old(self).last_save(), now)
                    &&& final(self).last_save() == (if save {
                        Some(now)
                    } else {
                        old(self).last_save()
                    })
                },
            },
            duration_ms > 0 ==> (save <==> old(self).last_save() is None || now >= old(
                self,
            ).last_save()->0 + 60 * 1_000_000_000),
            duration_ms > 0 && in_step(old(self)@, old(self).clock()) ==> {
                let bucket = bucket_at(position_ms as nat, duration_ms as nat)->0;
                &&& in_step(final(self)@, final(self).clock())
                &&& final(self)@.contains_key(id@)
                &&& final(self)@[id@].levels.len() == 256
                &&& final(self)@[id@].levels[bucket] >= vstd::math::min(level as int, FULL as int)
            },
    {
        let bucket = match bucket_of(position_ms, duration_ms) {
            Some(bucket) => bucket,
            None => {
                return false;
            },
        };
        self.clock = self.clock + 1;
        let ghost before = levels_of(old(self)@, id@);
        let mut levels: Vec<u32> = match self.tracks.remove(id) {
            Some(entry) => entry.levels,
            None => Vec::new(),
        };
        assert(levels@ =~= before);
        levels.resize(BUCKETS, 0);
        assert(levels@ =~= padded(before));
        let level: u32 = clamp(level);
        if level > levels[bucket] {
            levels.set(bucket, level);
        }
        assert(levels@ =~= heard(before, bucket as int, level));
        proof {
            assert(within(before)) by {
                if old(self)@.contains_key(id@) {
                    assert(within(old(self)@[id@].levels));
                }
            }
            lemma_heard_within(before, bucket as int, level);
        }
        let entry = Entry { levels, used: self.clock };
        let ghost kept = entry@;
        self.tracks.insert(id.to_owned(), entry);
        assert(self@ =~= old(self)@.insert(id@, kept));
        assert forall|other: Seq<char>| self@.contains_key(other) implies within(
            (#[trigger] self@[other]).levels,
        ) by {
            if other != id@ {
                assert(old(self)@.contains_key(other));
                assert(within(old(self)@[other].levels));
            }
        }
        self.trim();
        proof {
            if in_step(old(self)@, old(self).clock) {
                lemma_same_len(old(self).tracks@);
                old(self).tracks.lemma_entries();
                law_the_playing_track_is_kept(old(self)@, self@, old(self).clock, id@, kept);
            }
        }
        self.maybe_save(now)
    }

    /// The shape of a track resampled to `width` columns, each 0 to 1, with `None` for a
    /// column the track has not been heard at yet.
    ///
    /// `None` overall when nothing at all is known, so the caller can draw its ordinary bar
    /// instead of an empty one.
    pub fn shape(&self, id: &str, width: usize) -> (shape: Option<Vec<Option<u32>>>)
        requires
            self.wf(),
        ensures
            (match shape {
                Some(shape) => Some(shape@),
                None => None,
            }) == shape_of(self@, id@, width as nat),
            shape matches Some(shape) ==> forall|column: int|
                0 <= column < shape@.len() ==> (#[trigger] shape@[column] matches Some(level)
                    ==> UNHEARD < level <= FULL),
    {
        if width == 0 {
            return None;
        }
        match self.tracks.get(id) {
            None => None,
            Some(entry) => {
                let levels = &entry.levels;
                assert(levels@ == levels_of(self@, id@));
                assert(within(self@[id@].levels));
                if !is_any_heard(levels) {
                    return None;
                }
                let mut shape: Vec<Option<u32>> = Vec::new();
                for column in 0..width
                    invariant
                        width > 0,
                        levels@.len() > 0,
                        within(levels@),
                        forall|i: int|
                            0 <= i < column ==> (#[trigger] shape@[i] matches Some(level)
                                ==> UNHEARD < level <= FULL),
                        shape@ =~= resampled(levels@, width as nat).take(column as int),
                {
                    proof {
                        lemma_peak_within(
                            levels@,
                            first_bucket(levels@.len(), width as nat, column as nat),
                            end_bucket(levels@.len(), width as nat, column as nat),
                        );
                    }
                    shape.push(column_of(levels, width, column));
                }
                assert(resampled(levels@, width as nat).take(width as int) =~= resampled(
                    levels@,
                    width as nat,
                ));
                Some(shape)
            },
        }
    }

    /// Whether to write the shapes out, no more often than [`SAVE_EVERY`].
    fn maybe_save(&mut self, now: u128) -> (save: bool)
        ensures
            final(self).tracks == old(self).tracks,
            final(self).clock == old(self).clock,
            save == save_due(old(self).last_save, now),
            final(self).last_save == (if save {
                Some(now)
            } else {
                old(self).last_save
            }),
    {
        let recent = match self.last_save {
            Some(at) => now.saturating_sub(at) < SAVE_EVERY,
            None => false,
        };
        if recent {
            return false;
        }
        self.last_save = Some(now);
        true
    }

    /// The track that was played least recently.
    fn oldest(&self) -> (id: String)
        requires
            self.wf(),
            self@.len() > 0,
        ensures
            self@.contains_key(id@),
            forall|other: Seq<char>|
                self@.contains_key(other) ==> self@[id@].used <= (#[trigger] self@[other]).used,
    {
        proof {
            lemma_same_len(self.tracks@);
            self.tracks.lemma_entries();
        }
        let mut least: usize = 0;
        let count: usize = self.tracks.len();
        for i in 1..count
            invariant
                self.wf(),
                count == self.tracks@.len(),
                least < self.tracks@.len(),
                least < i,
                forall|j: int|
                    #![trigger self.tracks.key(j)]
                    0 <= j < i && j < self.tracks@.len()
                        ==> self.tracks@[self.tracks.key(least as int)].used
                        <= self.tracks@[self.tracks.key(j)].used,
        {
            if self.tracks.value_at(i).used < self.tracks.value_at(least).used {
                least = i;
            }
        }
        proof {
            self.tracks.lemma_entries();
        }
        let id = self.tracks.key_at(least).to_owned();
        assert forall|other: Seq<char>| self@.contains_key(other) implies self@[id@].used <= (
        #[trigger] self@[other]).used by {
            assert(self.tracks@.contains_key(other));
            let j = choose|j: int|
                0 <= j < self.tracks@.len() && #[trigger] self.tracks.key(j) == other;
            assert(self.tracks@[self.tracks.key(least as int)].used
                <= self.tracks@[self.tracks.key(j)].used);
        }
        id
    }

    /// Drop the least recently played tracks once the store outgrows its budget.
    fn trim(&mut self)
        requires
            old(self).wf(),
        ensures
            final(self).wf(),
            final(self).clock == old(self).clock,
            final(self).last_save == old(self).last_save,
            trimmed_to(old(self)@, final(self)@),
    {
        proof {
            self.tracks.lemma_entries();
            lemma_same_len(self.tracks@);
        }
        while self.tracks.len() > MAX_TRACKS
            invariant
                self.wf(),
                self.clock == old(self).clock,
                self.last_save == old(self).last_save,
                self@.submap_of(old(self)@),
                self@.dom().finite(),
                self@.len() == self.tracks@.len(),
                self@.len() <= old(self)@.len(),
                old(self)@.len() > MAX_TRACKS ==> self@.len() >= MAX_TRACKS,
                old(self)@.len() <= MAX_TRACKS ==> self@.len() == old(self)@.len(),
                forall|lost: Seq<char>, kept: Seq<char>|
                    old(self)@.contains_key(lost) && !self@.contains_key(lost)
                        && self@.contains_key(kept) ==> #[trigger] old(self)@[lost].used
                        <= #[trigger] self@[kept].used,
            decreases self.tracks@.len(),
        {
            let ghost before = self@;
            let id = self.oldest();
            let _ = self.tracks.remove(&id);
            proof {
                assert(self@ =~= before.remove(id@));
                self.tracks.lemma_entries();
                lemma_same_len(self.tracks@);
                table::lemma_part(before, old(self)@, id@);
                assert forall|lost: Seq<char>, kept: Seq<char>|
                    old(self)@.contains_key(lost) && !self@.contains_key(lost)
                        && self@.contains_key(kept) implies #[trigger] old(self)@[lost].used
                    <= #[trigger] self@[kept].used by {
                    assert(before[kept] == self@[kept]);
                    if lost == id@ {
                        assert(before[id@].used <= before[kept].used);
                    }
                }
            }
        }
    }

    /// Count the stamps anew, in the order in which the entries were used.
    fn restamp(&mut self)
        requires
            old(self).wf(),
        ensures
            final(self).wf(),
            final(self)@ == restamped(old(self)@),
            final(self).clock == old(self)@.len(),
            final(self).last_save == old(self).last_save,
    {
        let count: usize = self.tracks.len();
        proof {
            lemma_same_len(self.tracks@);
            self.tracks.lemma_entries();
        }
        let mut list: Vec<u64> = Vec::new();
        for i in 0..count
            invariant
                self.tracks.wf(),
                count == self.tracks@.len(),
                list@.len() == i,
                forall|j: int|
                    0 <= j < i ==> self.tracks@[#[trigger] self.tracks.key(j)].used == list@[j],
        {
            list.push(self.tracks.value_at(i).used);
        }
        let mut fresh: Table<Entry> = Table::new();
        let ghost whole = restamped(self@);
        for i in 0..count
            invariant
                self.tracks.wf(),
                self@ == entry_models(self.tracks@),
                whole == restamped(self@),
                count == self.tracks@.len(),
                list@.len() == count,
                forall|j: int|
                    0 <= j < count ==> self.tracks@[#[trigger] self.tracks.key(j)].used == list@[j],
                fresh.wf(),
                forall|key: Seq<char>| #[trigger]
                    fresh@.contains_key(key) <==> exists|j: int|
                        0 <= j < i && #[trigger] self.tracks.key(j) == key,
                forall|key: Seq<char>| #[trigger]
                    fresh@.contains_key(key) ==> whole.contains_key(key) && fresh@[key]@
                        == whole[key],
        {
            let ghost before = fresh@;
            let key = self.tracks.key_at(i).to_owned();
            let entry = self.tracks.value_at(i);
            let used: u64 = stamps::count_below(&list, entry.used);
            proof {
                lemma_same_len(self.tracks@);
                self.tracks.lemma_entries();
                assert(uses(self@).dom() =~= self.tracks@.dom());
                stamps::lemma_rank_is_counted(&self.tracks, uses(self@), list@, entry.used);
            }
            let entry = Entry { levels: copy_levels(&entry.levels), used };
            let ghost kept = entry;
            fresh.insert(key, entry);
            proof {
                assert(fresh@ == before.insert(self.tracks.key(i as int), kept));
                assert(kept@ == whole[self.tracks.key(i as int)]);
                assert forall|key: Seq<char>| #[trigger] fresh@.contains_key(key) implies exists|
                    j: int,
                | 0 <= j < i + 1 && #[trigger] self.tracks.key(j) == key by {
                    if key != self.tracks.key(i as int) {
                        assert(before.contains_key(key));
                    }
                }
                assert forall|key: Seq<char>|
                    (exists|j: int| 0 <= j < i + 1 && #[trigger] self.tracks.key(j)
                        == key) implies #[trigger] fresh@.contains_key(key) by {
                    if key != self.tracks.key(i as int) {
                        assert(before.contains_key(key));
                    }
                }
            }
        }
        proof {
            self.tracks.lemma_entries();
            assert(entry_models(fresh@) =~= whole) by {
                assert forall|key: Seq<char>| #[trigger] whole.contains_key(
                    key,
                ) implies fresh@.contains_key(key) by {
                    assert(self.tracks@.contains_key(key));
                }
            }
        }
        self.tracks = fresh;
        self.clock = count as u64;
        assert forall|other: Seq<char>| self@.contains_key(other) implies within(
            (#[trigger] self@[other]).levels,
        ) by {
            assert(within(old(self)@[other].levels));
        }
    }

    /// Restore what an earlier run has heard, unless that was kept in another format.
    /// Answers whether it was restored.
    pub fn load(&mut self, version: u16, expected: u16, list: &Vec<Stored>) -> (restored_all: bool)
        requires
            old(self).wf(),
        ensures
            final(self).wf(),
            final(self).last_save() == old(self).last_save(),
            restored_all == (version == expected),
            restored_all ==> ({
                let clock = restored_clock(old(self).clock(), list@);
                &&& final(self)@ == settled(restored(old(self)@, list@), clock)
                &&& final(self).clock() == settled_clock(restored(old(self)@, list@), clock)
            }),
            !restored_all ==> final(self)@ == old(self)@ && final(self).clock() == old(
                self,
            ).clock(),
    {
        if version != expected {
            return false;
        }
        assert(list@.take(0) =~= Seq::empty());
        for i in 0..list.len()
            invariant
                self.wf(),
                self.last_save == old(self).last_save,
                self@ == restored(old(self)@, list@.take(i as int)),
                self.clock == restored_clock(old(self).clock, list@.take(i as int)),
        {
            let ghost before = self@;
            let stored = &list[i];
            if stored.used > self.clock {
                self.clock = stored.used;
            }
            let entry = Entry { levels: clamp_levels(&stored.levels), used: stored.used };
            let ghost kept = entry@;
            self.tracks.insert(stored.id.clone(), entry);
            proof {
                assert(list@.take(i + 1).drop_last() =~= list@.take(i as int));
                assert(self@ =~= before.insert(stored.id@, kept));
                assert forall|other: Seq<char>| self@.contains_key(other) implies within(
                    (#[trigger] self@[other]).levels,
                ) by {
                    if other != stored.id@ {
                        assert(before.contains_key(other));
                        assert(within(before[other].levels));
                    }
                }
            }
        }
        assert(list@.take(list@.len() as int) =~= list@);
        if self.clock > stamps::LATEST {
            self.restamp();
        }
        true
    }

    /// Everything that was heard, to be kept for the next run.
    pub fn saved(&self) -> (list: Vec<Stored>)
        requires
            self.wf(),
        ensures
            list@.len() == self@.len(),
            restored(Map::empty(), list@) == self@,
    {
        let mut list: Vec<Stored> = Vec::new();
        proof {
            lemma_same_len(self.tracks@);
            self.tracks.lemma_entries();
        }
        let count: usize = self.tracks.len();
        for i in 0..count
            invariant
                self.wf(),
                count == self.tracks@.len(),
                list@.len() == i,
                self@.len() == self.tracks@.len(),
                forall|key: Seq<char>| #[trigger]
                    restored(Map::empty(), list@).contains_key(key) <==> exists|j: int|
                        0 <= j < i && #[trigger] self.tracks.key(j) == key,
                forall|key: Seq<char>| #[trigger]
                    restored(Map::empty(), list@).contains_key(key) ==> self@.contains_key(key)
                        && restored(Map::empty(), list@)[key] == self@[key],
        {
            let ghost before = list@;
            let id = self.tracks.key_at(i).to_owned();
            let entry = self.tracks.value_at(i);
            list.push(Stored { id, levels: copy_levels(&entry.levels), used: entry.used });
            proof {
                assert(list@.drop_last() =~= before);
                assert(within(self@[id@].levels));
                assert(entry.levels@.map_values(|level: u32| clamped(level)) =~= entry.levels@);
                assert(restored(Map::empty(), list@) == restored(Map::empty(), before).insert(
                    self.tracks.key(i as int),
                    entry@,
                ));
                assert forall|key: Seq<char>| #[trigger]
                    restored(Map::empty(), list@).contains_key(key) implies exists|j: int|
                    0 <= j < i + 1 && #[trigger] self.tracks.key(j) == key by {
                    if key != self.tracks.key(i as int) {
                        assert(restored(Map::empty(), before).contains_key(key));
                    }
                }
                assert forall|key: Seq<char>|
                    (exists|j: int| 0 <= j < i + 1 && #[trigger] self.tracks.key(j)
                        == key) implies #[trigger] restored(Map::empty(), list@).contains_key(
                    key,
                ) by {
                    if key != self.tracks.key(i as int) {
                        assert(restored(Map::empty(), before).contains_key(key));
                    }
                }
            }
        }
        proof {
            self.tracks.lemma_entries();
            assert forall|key: Seq<char>| #[trigger] self@.contains_key(key) implies restored(
                Map::empty(),
                list@,
            ).contains_key(key) by {
                assert(self.tracks@.contains_key(key));
            }
            assert(restored(Map::empty(), list@) =~= self@);
        }
        list
    }
}

/// A level, or the loudest one where it is louder than that.
fn clamp(level: u32) -> (kept: u32)
    ensures
        kept == clamped(level),
{
    if level > FULL {
        FULL
    } else {
        level
    }
}

fn clamp_levels(levels: &Vec<u32>) -> (kept: Vec<u32>)
    ensures
        kept@ == levels@.map_values(|level: u32| clamped(level)),
{
    let mut kept: Vec<u32> = Vec::new();
    for i in 0..levels.len()
        invariant
            kept@ =~= levels@.take(i as int).map_values(|level: u32| clamped(level)),
    {
        kept.push(clamp(levels[i]));
    }
    assert(levels@.take(levels@.len() as int) =~= levels@);
    kept
}

/// Hearing a level makes no track louder than it can be.
proof fn lemma_heard_within(levels: Seq<u32>, bucket: int, level: u32)
    requires
        within(levels),
        0 <= bucket < BUCKETS,
    ensures
        within(heard(levels, bucket, level)),
{
}

/// The loudest of some levels is not louder than it can be.
proof fn lemma_peak_within(levels: Seq<u32>, first: int, last: int)
    requires
        within(levels),
        0 <= first,
        last <= levels.len(),
    ensures
        peak(levels, first, last) <= FULL,
    decreases last - first,
{
    if first < last {
        lemma_peak_within(levels, first, last - 1);
    }
}

fn copy_levels(levels: &Vec<u32>) -> (copy: Vec<u32>)
    ensures
        copy@ == levels@,
{
    let mut copy: Vec<u32> = Vec::new();
    for i in 0..levels.len()
        invariant
            copy@ =~= levels@.take(i as int),
    {
        copy.push(levels[i]);
    }
    assert(levels@.take(levels@.len() as int) =~= levels@);
    copy
}

fn is_any_heard(levels: &Vec<u32>) -> (any: bool)
    ensures
        any == any_heard(levels@),
{
    for i in 0..levels.len()
        invariant
            forall|j: int| 0 <= j < i ==> #[trigger] levels@[j] <= UNHEARD,
    {
        if levels[i] > UNHEARD {
            return true;
        }
    }
    false
}

/// What is shown of one column.
fn column_of(levels: &Vec<u32>, width: usize, column: usize) -> (level: Option<u32>)
    requires
        column < width,
        levels@.len() > 0,
    ensures
        level == resampled(levels@, width as nat)[column as int],
{
    let buckets: u128 = levels.len() as u128;
    let columns: u128 = width as u128;
    proof {
        assert(column * buckets <= 0xffff_ffff_ffff_ffff * 0xffff_ffff_ffff_ffff)
            by (nonlinear_arith)
            requires
                0 <= column <= 0xffff_ffff_ffff_ffff,
                0 <= buckets <= 0xffff_ffff_ffff_ffff,
        ;
        assert((column + 1) * buckets <= 0xffff_ffff_ffff_ffff * 0xffff_ffff_ffff_ffff)
            by (nonlinear_arith)
            requires
                0 <= column < 0xffff_ffff_ffff_ffff,
                0 <= buckets <= 0xffff_ffff_ffff_ffff,
        ;
        assert((column * buckets) / (columns as int) < buckets) by (nonlinear_arith)
            requires
                0 <= column < columns,
                buckets > 0,
        ;
        assert(column as nat * levels@.len() == column * buckets) by (nonlinear_arith)
            requires
                buckets == levels@.len(),
        ;
        assert((column as nat + 1) * levels@.len() == (column + 1) * buckets) by (nonlinear_arith)
            requires
                buckets == levels@.len(),
        ;
    }
    let first: u128 = column as u128 * buckets / columns;
    let reach: u128 = ((column as u128 + 1) * buckets + (columns - 1)) / columns;
    let at_least: u128 = if reach > first {
        reach
    } else {
        first + 1
    };
    let end: usize = if at_least < buckets {
        at_least as usize
    } else {
        levels.len()
    };
    assert(first == first_bucket(levels@.len(), width as nat, column as nat));
    assert(end == end_bucket(levels@.len(), width as nat, column as nat));
    let mut loudest: u32 = 0;
    let begin: usize = first as usize;
    for i in begin..end
        invariant
            begin <= end,
            end <= levels@.len(),
            loudest == peak(levels@, begin as int, i as int),
    {
        if levels[i] > loudest {
            loudest = levels[i];
        }
    }
    if loudest > UNHEARD {
        Some(loudest)
    } else {
        None
    }
}

/// Note how loud the playing track is at the position it is at now, where something is
/// playing, audio is coming through, and the item is one that can be told from others.
/// Answers whether the shapes are worth writing out now.
///
/// Called from the views that draw often, since what they are really doing is sampling: the
/// more frames a view draws, the finer the shape it learns.
pub fn observe(
    store: &mut WaveformStore,
    status: PlayerEvent,
    live: bool,
    current: &Option<Playable>,
    progress_ms: u128,
    level: u32,
    now: u128,
) -> (save: bool)
    requires
        old(store).wf(),
        old(store).clock() < u64::MAX,
    ensures
        final(store).wf(),
        match observed(status, live, *current, progress_ms) {
            None => !save && final(store)@ == old(store)@ && final(store).clock() == old(
                store,
            ).clock() && final(store).last_save() == old(store).last_save(),
            Some((id, bucket)) => {
                &&& final(store).clock() == old(store).clock() + 1
                &&& trimmed_to(
                    old(store)@.insert(
                        id,
                        EntryModel {
                            levels: heard(levels_of(old(store)@, id), bucket, level),
                            used: (old(store).clock() + 1) as u64,
                        },
                    ),
                    final(store)@,
                )
                &&& save == save_due(old(store).last_save(), now)
                &&& final(store).last_save() == (if save {
                    Some(now)
                } else {
                    old(store).last_save()
                })
            },
        },
{
    if !status.is_playing() || !live {
        return false;
    }
    match current {
        None => false,
        Some(playable) => match playable.id() {
            None => false,
            Some(id) => store.record(&id, progress_ms, playable.duration(), level, now),
        },
    }
}

/// The track and the bucket that are listened to.
pub open spec fn observed(
    status: PlayerEvent,
    live: bool,
    current: Option<Playable>,
    progress_ms: u128,
) -> Option<(Seq<char>, int)> {
    match current {
        Some(playable) if status is Playing && live => match (
            playable@.id(),
            bucket_at(progress_ms as nat, playable@.duration() as nat),
        ) {
            (Some(id), Some(bucket)) => Some((id, bucket)),
            _ => None,
        },
        _ => None,
    }
}

/// The models of the entries of a table are as many as its entries.
proof fn lemma_same_len(entries: Map<Seq<char>, Entry>)
    ensures
        entry_models(entries).len() == entries.len(),
        entry_models(entries).dom() == entries.dom(),
{
    assert(entry_models(entries).dom() =~= entries.dom());
}

// ---------------------------------------------------------------------------
// What the store promises.
// ---------------------------------------------------------------------------

/// A bucket keeps the loudest level it heard, and hearing one changes no other.
pub proof fn law_a_bucket_keeps_the_loudest_level(levels: Seq<u32>, bucket: int, level: u32)
    requires
        0 <= bucket < BUCKETS,
    ensures
        heard(levels, bucket, level)[bucket] >= clamped(level),
        heard(levels, bucket, level)[bucket] >= padded(levels)[bucket],
        heard(levels, bucket, level)[bucket] == clamped(level) || heard(levels, bucket, level)[bucket]
            == padded(levels)[bucket],
        forall|other: int|
            0 <= other < BUCKETS && other != bucket ==> #[trigger] heard(
                levels,
                bucket,
                level,
            )[other] == padded(levels)[other],
{
}

/// Levels stay between nothing and one: hearing any level keeps them there, so does restoring
/// any list, and so no column of a shape is louder.
pub proof fn law_levels_stay_between_nothing_and_one(
    entries: Map<Seq<char>, EntryModel>,
    list: Seq<Stored>,
    levels: Seq<u32>,
    bucket: int,
    level: u32,
    width: nat,
    column: int,
)
    requires
        all_within(entries),
        within(levels),
        levels.len() > 0,
        0 <= bucket < BUCKETS,
        0 <= column < width,
    ensures
        within(heard(levels, bucket, level)),
        all_within(restored(entries, list)),
        resampled(levels, width)[column] matches Some(level) ==> UNHEARD < level <= FULL,
{
    lemma_heard_within(levels, bucket, level);
    lemma_restored_within(entries, list);
    let first = first_bucket(levels.len(), width, column as nat);
    vstd::arithmetic::div_mod::lemma_div_pos_is_pos(column * levels.len(), width as int);
    assert(column * levels.len() >= 0) by (nonlinear_arith)
        requires
            column >= 0,
    ;
    assert(column * levels.len() == column as nat * levels.len()) by (nonlinear_arith)
        requires
            column >= 0,
    ;
    lemma_peak_within(levels, first, end_bucket(levels.len(), width, column as nat));
}

proof fn lemma_restored_within(entries: Map<Seq<char>, EntryModel>, list: Seq<Stored>)
    requires
        all_within(entries),
    ensures
        all_within(restored(entries, list)),
    decreases list.len(),
{
    if list.len() > 0 {
        let fewer = restored(entries, list.drop_last());
        lemma_restored_within(entries, list.drop_last());
        assert forall|id: Seq<char>| restored(entries, list).contains_key(id) implies within(
            (#[trigger] restored(entries, list)[id]).levels,
        ) by {
            if id != list.last().id@ {
                assert(fewer.contains_key(id));
                assert(within(fewer[id].levels));
            }
        }
    }
}

/// The order in which two levels are heard makes no difference.
pub proof fn law_the_order_of_levels_does_not_matter(
    levels: Seq<u32>,
    one: int,
    first: u32,
    other: int,
    second: u32,
)
    requires
        0 <= one < BUCKETS,
        0 <= other < BUCKETS,
    ensures
        heard(heard(levels, one, first), other, second) == heard(
            heard(levels, other, second),
            one,
            first,
        ),
{
    assert(heard(heard(levels, one, first), other, second) =~= heard(
        heard(levels, other, second),
        one,
        first,
    ));
}

/// A position further into a track falls in the same bucket or in a later one.
pub proof fn law_buckets_follow_the_playhead(position: nat, later: nat, duration: nat)
    requires
        position <= later,
        duration > 0,
    ensures
        0 <= bucket_at(position, duration)->0 <= bucket_at(later, duration)->0 < BUCKETS,
{
    assert(position * BUCKETS as nat <= later * BUCKETS as nat) by (nonlinear_arith)
        requires
            position <= later,
    ;
    vstd::arithmetic::div_mod::lemma_div_is_ordered(
        (position * BUCKETS as nat) as int,
        (later * BUCKETS as nat) as int,
        duration as int,
    );
    vstd::arithmetic::div_mod::lemma_div_pos_is_pos(
        (position * BUCKETS as nat) as int,
        duration as int,
    );
}

/// Nothing that was heard is lost in resampling: every bucket belongs to some column.
pub proof fn law_every_bucket_is_shown(buckets: nat, width: nat, bucket: nat)
    requires
        width > 0,
        bucket < buckets,
    ensures
        exists|column: nat|
            column < width && #[trigger] first_bucket(buckets, width, column) <= bucket
                < end_bucket(buckets, width, column),
{
    let column = (bucket * width / buckets) as nat;
    vstd::arithmetic::div_mod::lemma_fundamental_div_mod((bucket * width) as int, buckets as int);
    let rest = bucket * width % buckets;
    assert(bucket * width == buckets * column + rest);
    assert(column < width) by (nonlinear_arith)
        requires
            bucket * width == buckets * column + rest,
            bucket < buckets,
            width > 0,
            rest >= 0,
    ;
    assert(column * buckets <= bucket * width) by (nonlinear_arith)
        requires
            bucket * width == buckets * column + rest,
            rest >= 0,
    ;
    assert(column * buckets / width <= bucket) by (nonlinear_arith)
        requires
            column * buckets <= bucket * width,
            width > 0,
    ;
    assert((column + 1) * buckets > bucket * width) by (nonlinear_arith)
        requires
            bucket * width == buckets * column + rest,
            rest < buckets,
    ;
    assert(((column + 1) * buckets + width - 1) / width as int > bucket) by (nonlinear_arith)
        requires
            (column + 1) * buckets > bucket * width,
            width > 0,
    ;
    assert(first_bucket(buckets, width, column) <= bucket);
    assert(bucket < end_bucket(buckets, width, column));
}

/// What is louder than silence shows: a column shows a level exactly where one of its
/// buckets has been heard.
pub proof fn law_a_column_shows_what_was_heard(levels: Seq<u32>, first: int, last: int)
    requires
        0 <= first <= last <= levels.len(),
    ensures
        shown(peak(levels, first, last)) is Some <==> exists|i: int|
            first <= i < last && #[trigger] levels[i] > UNHEARD,
        forall|i: int| first <= i < last ==> #[trigger] levels[i] <= peak(levels, first, last),
    decreases last - first,
{
    if first < last {
        law_a_column_shows_what_was_heard(levels, first, last - 1);
        let before = peak(levels, first, last - 1);
        if before > UNHEARD {
            let i = choose|i: int| first <= i < last - 1 && #[trigger] levels[i] > UNHEARD;
            assert(levels[i] > UNHEARD);
        }
        if levels[last - 1] > UNHEARD {
            assert(shown(peak(levels, first, last)) is Some);
        }
    }
}

/// The store never outgrows its budget, and within it nothing is forgotten.
pub proof fn law_the_store_stays_within_its_budget(
    before: Map<Seq<char>, EntryModel>,
    after: Map<Seq<char>, EntryModel>,
)
    requires
        before.dom().finite(),
        trimmed_to(before, after),
    ensures
        after.len() <= MAX_TRACKS,
        before.len() <= MAX_TRACKS ==> after == before,
        after.len() <= 512,
        before.len() <= 512 ==> after == before,
        before.len() > 512 ==> after.len() == 512,
{
    if before.len() <= MAX_TRACKS {
        assert(after.dom().subset_of(before.dom())) by {
            assert forall|key: Seq<char>| after.dom().contains(key) implies before.dom().contains(
                key,
            ) by {
                assert(after.contains_key(key));
            }
        }
        vstd::set_lib::lemma_subset_equality(after.dom(), before.dom());
        assert(after =~= before);
    }
}

/// No entry was used after the clock.
pub open spec fn in_step(entries: Map<Seq<char>, EntryModel>, clock: u64) -> bool {
    forall|key: Seq<char>|
        entries.contains_key(key) ==> (#[trigger] entries[key]).used <= clock
}

/// Restoring keeps the stamps of the entries in step with the clock, so the track that is
/// playing is never the one that has to go.
pub proof fn law_restored_stamps_are_in_step(
    entries: Map<Seq<char>, EntryModel>,
    clock: u64,
    list: Seq<Stored>,
)
    requires
        in_step(entries, clock),
    ensures
        in_step(restored(entries, list), restored_clock(clock, list)),
        restored_clock(clock, list) >= clock,
    decreases list.len(),
{
    if list.len() > 0 {
        let rest = list.drop_last();
        law_restored_stamps_are_in_step(entries, clock, rest);
        assert forall|key: Seq<char>| restored(entries, list).contains_key(key) implies (
        #[trigger] restored(entries, list)[key]).used <= restored_clock(clock, list) by {
            if key != list.last().id@ {
                assert(restored(entries, rest).contains_key(key));
                assert(restored(entries, rest)[key].used <= restored_clock(clock, rest));
            }
        }
    }
}

/// What has just been heard is remembered, whatever had to go for it.
pub proof fn law_the_playing_track_is_kept(
    before: Map<Seq<char>, EntryModel>,
    after: Map<Seq<char>, EntryModel>,
    clock: u64,
    id: Seq<char>,
    entry: EntryModel,
)
    requires
        before.dom().finite(),
        clock < u64::MAX,
        in_step(before, clock),
        entry.used == clock + 1,
        trimmed_to(before.insert(id, entry), after),
    ensures
        after.contains_key(id),
        after[id] == entry,
        in_step(after, (clock + 1) as u64),
{
    let grown = before.insert(id, entry);
    if !after.contains_key(id) {
        if after.dom() =~= Set::<Seq<char>>::empty() {
            assert(after.len() == 0);
            if grown.dom().len() == 0 {
                assert(grown.dom() =~= Set::<Seq<char>>::empty());
            }
            assert(grown.dom().contains(id));
            assert(false);
        } else {
            let kept = choose|kept: Seq<char>| after.contains_key(kept);
            assert(after.contains_key(kept));
            assert(grown[id].used <= after[kept].used);
            table::lemma_part(after, grown, kept);
            assert(before.contains_key(kept) && before[kept].used <= clock);
            assert(false);
        }
    }
    table::lemma_part(after, grown, id);
    assert forall|other: Seq<char>| after.contains_key(other) implies (
    #[trigger] after[other]).used <= clock + 1 by {
        table::lemma_part(after, grown, other);
        if other != id {
            assert(before.contains_key(other));
        }
    }
}

/// Restored entries are taken over with the same contents and in the same order of use, their
/// stamps are in step with the clock, and the clock has room to go on: whatever stamps an
/// earlier run has left, this one can count its own.
pub proof fn law_restored_entries_leave_room(
    entries: Map<Seq<char>, EntryModel>,
    clock: u64,
    one: Seq<char>,
    other: Seq<char>,
)
    requires
        entries.dom().finite(),
        entries.len() <= stamps::LATEST,
        in_step(entries, clock),
        entries.contains_key(one),
        entries.contains_key(other),
    ensures
        settled(entries, clock).dom() == entries.dom(),
        settled(entries, clock)[one].levels == entries[one].levels,
        settled(entries, clock)[one].used < settled(entries, clock)[other].used <==> entries[one].used
            < entries[other].used,
        in_step(settled(entries, clock), settled_clock(entries, clock)),
        settled_clock(entries, clock) <= stamps::LATEST,
{
    assert(settled(entries, clock).dom() =~= entries.dom());
    assert(uses(entries).dom() =~= entries.dom());
    stamps::law_ranks_keep_the_order(uses(entries), one, other);
    stamps::law_ranks_keep_the_order(uses(entries), other, one);
    if clock > stamps::LATEST {
        assert forall|key: Seq<char>| restamped(entries).contains_key(key) implies (
        #[trigger] restamped(entries)[key]).used <= entries.len() by {
            stamps::law_ranks_keep_the_order(uses(entries), key, key);
        }
    }
}

/// The buckets of a track are 256 parts of equal length: a position falls in the one that it
/// lies in, the end and everything past it in the last, and where there is no length there
/// are no parts.
pub proof fn law_a_position_falls_in_its_part(position: nat, duration: nat)
    ensures
        duration == 0 <==> bucket_at(position, duration) is None,
        bucket_at(position, duration) matches Some(bucket) ==> {
            &&& 0 <= bucket < 256
            &&& position < duration ==> bucket * duration <= position * 256 < (bucket + 1)
                * duration
            &&& position >= duration ==> bucket == 255
        },
{
    if duration > 0 {
        let product = position * 256;
        let part = product / duration;
        assert(part * duration <= product < (part + 1) * duration) by (nonlinear_arith)
            requires
                duration > 0,
                part == product / duration,
        ;
        if position < duration {
            assert(part < 256) by (nonlinear_arith)
                requires
                    part * duration <= position * 256,
                    position < duration,
            ;
        } else {
            assert(part >= 256) by (nonlinear_arith)
                requires
                    position * 256 < (part + 1) * duration,
                    position >= duration,
            ;
        }
    }
}

/// A column shows just the buckets that it has a part of: those that begin before the column
/// ends and end after it begins, when both are laid over the same length.
pub proof fn law_a_column_shows_the_buckets_it_touches(
    buckets: nat,
    width: nat,
    column: nat,
    bucket: int,
)
    requires
        width > 0,
        column < width,
        0 <= bucket < buckets,
    ensures
        first_bucket(buckets, width, column) <= bucket < end_bucket(buckets, width, column) <==> (
        bucket * width < (column + 1) * buckets && column * buckets < (bucket + 1) * width),
        first_bucket(buckets, width, column) < end_bucket(buckets, width, column),
{
    let before = column * buckets;
    let after = (column + 1) * buckets;
    let first = before / width;
    let end = (after + width - 1) / width as int;
    assert(after == before + buckets) by (nonlinear_arith)
        requires
            before == column * buckets,
            after == (column + 1) * buckets,
    ;
    assert(first * width <= before < (first + 1) * width) by (nonlinear_arith)
        requires
            width > 0,
            first == before / width,
    ;
    assert((end - 1) * width < after <= end * width) by (nonlinear_arith)
        requires
            width > 0,
            end == (after + width - 1) / width as int,
    ;
    assert(end > first) by (nonlinear_arith)
        requires
            first * width <= before,
            after <= end * width,
            after > before,
            width > 0,
    ;
    assert(first < buckets) by (nonlinear_arith)
        requires
            first * width <= before,
            before == column * buckets,
            column < width,
            buckets > 0,
    ;
    assert(first <= bucket <==> before < (bucket + 1) * width) by (nonlinear_arith)
        requires
            first * width <= before < (first + 1) * width,
            width > 0,
    ;
    assert(bucket < end <==> bucket * width < after) by (nonlinear_arith)
        requires
            (end - 1) * width < after <= end * width,
            width > 0,
    ;
}

/// What a column shows is the loudest of its buckets, and not a level that none of them had.
pub proof fn law_a_column_shows_its_loudest_bucket(levels: Seq<u32>, first: int, last: int)
    requires
        0 <= first < last <= levels.len(),
    ensures
        exists|i: int| first <= i < last && #[trigger] levels[i] == peak(levels, first, last),
        forall|i: int| first <= i < last ==> #[trigger] levels[i] <= peak(levels, first, last),
    decreases last - first,
{
    if first < last - 1 {
        law_a_column_shows_its_loudest_bucket(levels, first, last - 1);
        let before = peak(levels, first, last - 1);
        let i = choose|i: int| first <= i < last - 1 && #[trigger] levels[i] == before;
        if levels[last - 1] <= before {
            assert(levels[i] == peak(levels, first, last));
        } else {
            assert(levels[last - 1] == peak(levels, first, last));
        }
    } else {
        assert(peak(levels, first, first) == 0);
        assert(levels[first] == peak(levels, first, last));
    }
}

/// A shape has a column for each one asked for, and there is one exactly where something of
/// the track has been heard and there is anything to draw it on.
pub proof fn law_a_shape_is_as_wide_as_asked(
    entries: Map<Seq<char>, EntryModel>,
    id: Seq<char>,
    width: nat,
)
    ensures
        shape_of(entries, id, width) matches Some(shape) ==> shape.len() == width && width > 0
            && entries.contains_key(id),
        shape_of(entries, id, width) is Some <==> width > 0 && entries.contains_key(id) && exists|
            i: int,
        |
            0 <= i < entries[id].levels.len() && #[trigger] entries[id].levels[i] > UNHEARD,
{
}

/// Hearing something leaves a level for every bucket, and what is louder than full is full.
pub proof fn law_what_is_heard_is_kept_whole(levels: Seq<u32>, bucket: int, level: u32)
    requires
        0 <= bucket < 256,
    ensures
        heard(levels, bucket, level).len() == 256,
        level <= FULL ==> heard(levels, bucket, level)[bucket] >= level,
        level > FULL ==> heard(levels, bucket, level)[bucket] >= FULL,
        heard(heard(levels, bucket, level), bucket, level) == heard(levels, bucket, level),
        forall|i: int|
            0 <= i < 256 && i != bucket && i < levels.len() ==> #[trigger] heard(
                levels,
                bucket,
                level,
            )[i] == levels[i],
        forall|i: int|
            levels.len() <= i < 256 && i != bucket ==> #[trigger] heard(levels, bucket, level)[i]
                == 0,
        levels.len() <= bucket && level <= FULL ==> heard(levels, bucket, level)[bucket] == level,
{
    assert(heard(heard(levels, bucket, level), bucket, level) =~= heard(levels, bucket, level));
}

/// A track is listened to exactly while it plays, audio comes through, and it can be told
/// from others and has a length.
pub proof fn law_only_what_plays_is_heard(
    status: PlayerEvent,
    live: bool,
    current: Option<Playable>,
    progress_ms: u128,
)
    ensures
        observed(status, live, current, progress_ms) is Some <==> status is Playing && live
            && current is Some && current->0@.id() is Some && current->0@.duration() > 0,
        observed(status, live, current, progress_ms) matches Some((id, bucket)) ==> Some(id)
            == current->0@.id() && Some(bucket) == bucket_at(
            progress_ms as nat,
            current->0@.duration() as nat,
        ),
{
}

/// Shapes are written out when they never were, and then once a minute.
pub proof fn law_shapes_are_saved_once_a_minute(at: u128, now: u128)
    ensures
        save_due(None, now),
        save_due(Some(at), now) <==> now >= at + 60 * 1_000_000_000,
{
}

/// Of several stored entries of one track the last one counts, with no level above full;
/// a track without any keeps what it had.
pub proof fn law_the_last_stored_entry_counts(
    entries: Map<Seq<char>, EntryModel>,
    list: Seq<Stored>,
    at: int,
    id: Seq<char>,
)
    requires
        0 <= at < list.len(),
        forall|later: int| at < later < list.len() ==> (#[trigger] list[later]).id@ != list[at].id@,
        forall|i: int| 0 <= i < list.len() ==> (#[trigger] list[i]).id@ != id,
    ensures
        ({
            let after = restored(entries, list);
            let stored = list[at];
            &&& after.contains_key(stored.id@)
            &&& after[stored.id@].used == stored.used
            &&& after[stored.id@].levels.len() == stored.levels@.len()
            &&& forall|i: int|
                0 <= i < stored.levels@.len() ==> #[trigger] after[stored.id@].levels[i] == if (
                stored.levels@[i] > FULL) {
                    FULL
                } else {
                    stored.levels@[i]
                }
            &&& after.contains_key(id) <==> entries.contains_key(id)
            &&& entries.contains_key(id) ==> after[id] == entries[id]
        }),
    decreases list.len(),
{
    let fewer = list.drop_last();
    lemma_unlisted_stays(entries, fewer, id);
    if at < fewer.len() {
        assert forall|later: int| at < later < fewer.len() implies (
        #[trigger] fewer[later]).id@ != fewer[at].id@ by {
            assert(fewer[later] == list[later]);
        }
        assert forall|i: int| 0 <= i < fewer.len() implies (#[trigger] fewer[i]).id@ != id by {
            assert(fewer[i] == list[i]);
        }
        assert(list[list.len() - 1].id@ != list[at].id@);
        law_the_last_stored_entry_counts(entries, fewer, at, id);
        assert(fewer[at] == list[at]);
        assert(restored(entries, list)[list[at].id@] == restored(entries, fewer)[list[at].id@]);
    }
    assert(list[list.len() - 1].id@ != id);
}

proof fn lemma_unlisted_stays(
    entries: Map<Seq<char>, EntryModel>,
    list: Seq<Stored>,
    id: Seq<char>,
)
    ensures
        (forall|i: int| 0 <= i < list.len() ==> (#[trigger] list[i]).id@ != id) ==> (restored(
            entries,
            list,
        ).contains_key(id) <==> entries.contains_key(id)) && (entries.contains_key(id)
            ==> restored(entries, list)[id] == entries[id]),
    decreases list.len(),
{
    if list.len() > 0 && (forall|i: int| 0 <= i < list.len() ==> (#[trigger] list[i]).id@ != id) {
        let fewer = list.drop_last();
        assert forall|i: int| 0 <= i < fewer.len() implies (#[trigger] fewer[i]).id@ != id by {
            assert(fewer[i] == list[i]);
        }
        lemma_unlisted_stays(entries, fewer, id);
        assert(list[list.len() - 1].id@ != id);
    }
}

/// A level that is drawn lies between two to the power of minus 23, which is as good as
/// nothing, and one: those are the exponents that their bits hold.
pub proof fn law_levels_are_drawn_from_next_to_nothing_to_one(level: u32)
    ensures
        shown(level) is Some <==> level > (127 - 23) * 0x80_0000,
        shown(level) matches Some(drawn) ==> drawn == level,
        clamped(level) <= 127 * 0x80_0000,
        level <= 127 * 0x80_0000 ==> clamped(level) == level,
        level > 127 * 0x80_0000 ==> clamped(level) == 127 * 0x80_0000,
{
}

/// The clock after restoring is the later one of what it was and the latest stamp that was
/// restored, so it jumps no further than it has to.
pub proof fn law_the_clock_follows_the_latest_stamp(clock: u64, list: Seq<Stored>)
    ensures
        restored_clock(clock, list) >= clock,
        forall|i: int|
            0 <= i < list.len() ==> (#[trigger] list[i]).used <= restored_clock(clock, list),
        restored_clock(clock, list) == clock || exists|i: int|
            0 <= i < list.len() && (#[trigger] list[i]).used == restored_clock(clock, list),
    decreases list.len(),
{
    if list.len() > 0 {
        let fewer = list.drop_last();
        law_the_clock_follows_the_latest_stamp(clock, fewer);
        let before = restored_clock(clock, fewer);
        assert forall|i: int| 0 <= i < list.len() implies (#[trigger] list[i]).used
            <= restored_clock(clock, list) by {
            if i < fewer.len() {
                assert(fewer[i] == list[i]);
            }
        }
        if list.last().used > before {
            assert(list[list.len() - 1].used == restored_clock(clock, list));
        } else if before != clock {
            let i = choose|i: int|
                0 <= i < fewer.len() && (#[trigger] fewer[i]).used == before;
            assert(list[i].used == before);
        }
    }
}

} // verus!
