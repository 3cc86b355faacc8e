//! Remembered search results.
//!
//! Quick search draws from this before it asks the network, so a repeated or re-typed
//! query lands instantly and a growing query always has the previous prefix's results on
//! screen instead of an empty list.

use vstd::prelude::*;

use crate::model;
use crate::model::Track;
#[allow(unused_imports)]
use crate::model::TrackModel;
use crate::stamps;
use crate::table;
use crate::table::Table;
use crate::text;

verus! {

/// Queries kept. Each holds a page of results, so this is a few hundred kilobytes at worst.
pub const MAX_QUERIES: usize = 256;
/// How long a cached result is served without asking again, in nanoseconds. Track metadata
/// barely moves, so this only has to be short enough that a new release shows up.
pub const FRESH_FOR: u128 = 600_000_000_000;

/// The form under which a query is remembered.
pub open spec fn normalized(query: Seq<char>) -> Seq<char> {
    text::lowercase(text::trimmed(query))
}

/// The form under which a query is remembered: without the blanks around it, in lower case.
pub fn normalize(query: &str) -> (key: String)
    ensures
        key@ == normalized(query@),
{
    text::to_lowercase(&text::trim(query))
}

/// What is remembered of one query.
pub struct Entry {
    pub tracks: Vec<Track>,
    /// Bumped on every read, so trimming can drop the least recently used query.
    pub used: u64,
    /// When the results came, in nanoseconds. Entries that were restored have no age and
    /// are always refreshed once.
    pub fetched: Option<u128>,
}

/// An [`Entry`] as the contracts speak of it.
#[verifier::ext_equal]
pub struct EntryModel {
    pub tracks: Seq<TrackModel>,
    pub used: u64,
    pub fetched: Option<u128>,
}

impl View for Entry {
    type V = EntryModel;

    open spec fn view(&self) -> EntryModel {
        EntryModel {
            tracks: model::track_models(self.tracks@),
            used: self.used,
            fetched: self.fetched,
        }
    }
}

/// One entry with its query, as it is kept between runs.
pub struct Stored {
    pub query: String,
    pub tracks: Vec<Track>,
    pub used: u64,
}

/// The entries of a table, as the contracts speak of them.
pub open spec fn entry_models(entries: Map<Seq<char>, Entry>) -> Map<Seq<char>, EntryModel> {
    entries.map_values(|entry: Entry| entry@)
}

/// Whether results that came at `fetched` still count at `now`.
pub open spec fn still_fresh(fetched: Option<u128>, now: u128) -> bool {
    fetched matches Some(at) && now - at < FRESH_FOR
}

/// The results that are served for `key` without asking again.
pub open spec fn served(
    entries: Map<Seq<char>, EntryModel>,
    key: Seq<char>,
    now: u128,
) -> Option<Seq<TrackModel>> {
    if entries.contains_key(key) && still_fresh(entries[key].fetched, now) {
        Some(entries[key].tracks)
    } else {
        None
    }
}

/// The entries after `key` was looked up at `tick`.
pub open spec fn touched(
    entries: Map<Seq<char>, EntryModel>,
    key: Seq<char>,
    tick: u64,
) -> Map<Seq<char>, EntryModel> {
    if entries.contains_key(key) {
        entries.insert(key, EntryModel { used: tick, ..entries[key] })
    } else {
        entries
    }
}

/// The longest prefix of `key` of at most `len` characters that was searched before.
pub open spec fn longest_known(
    entries: Map<Seq<char>, EntryModel>,
    key: Seq<char>,
    len: nat,
) -> Option<Seq<char>>
    decreases len,
{
    if entries.contains_key(key.take(len as int)) {
        Some(key.take(len as int))
    } else if len == 0 {
        None
    } else {
        longest_known(entries, key, (len - 1) as nat)
    }
}

/// The query that answers for `key`: itself, or failing that the longest prefix of it that
/// was searched before. Nothing answers for an empty one.
pub open spec fn answering(
    entries: Map<Seq<char>, EntryModel>,
    key: Seq<char>,
) -> Option<Seq<char>> {
    if key.len() == 0 {
        None
    } else {
        longest_known(entries, key, key.len())
    }
}

/// Whatever is known about `key`: an exact hit however old, or failing that the results of
/// the longest prefix of it that was searched before.
pub open spec fn known(entries: Map<Seq<char>, EntryModel>, key: Seq<char>) -> Seq<TrackModel> {
    match answering(entries, key) {
        Some(prefix) => entries[prefix].tracks,
        None => Seq::empty(),
    }
}

/// The entries after what is known about `key` was read at `tick`: reading a query counts as
/// using it.
pub open spec fn consulted(
    entries: Map<Seq<char>, EntryModel>,
    key: Seq<char>,
    tick: u64,
) -> Map<Seq<char>, EntryModel> {
    match answering(entries, key) {
        Some(prefix) => touched(entries, prefix, tick),
        None => entries,
    }
}

/// Whether `after` is `before` cut down to the budget: it has lost no more than it had to,
/// and nothing that it lost was used later than anything that it kept. Of two entries that
/// were used at the same time either may go.
pub open spec fn trimmed_to(
    before: Map<Seq<char>, EntryModel>,
    after: Map<Seq<char>, EntryModel>,
) -> bool {
    &&& after.submap_of(before)
    &&& after.len() == vstd::math::min(before.len() as int, MAX_QUERIES as int)
    &&& forall|lost: Seq<char>, kept: Seq<char>|
        before.contains_key(lost) && !after.contains_key(lost) && after.contains_key(kept)
            ==> #[trigger] before[lost].used <= #[trigger] after[kept].used
}

/// The entries after `list` was restored into them, a later entry in place of an earlier
/// one.
pub open spec fn restored(
    entries: Map<Seq<char>, EntryModel>,
    list: Seq<Stored>,
) -> Map<Seq<char>, EntryModel>
    decreases list.len(),
{
    if list.len() == 0 {
        entries
    } else {
        restored(entries, list.drop_last()).insert(
            list.last().query@,
            EntryModel {
                tracks: model::track_models(list.last().tracks@),
                used: list.last().used,
                fetched: None,
            },
        )
    }
}

/// The clock after `list` was restored: no entry was used after it.
pub open spec fn restored_clock(clock: u64, list: Seq<Stored>) -> u64
    decreases list.len(),
{
    if list.len() == 0 {
        clock
    } else {
        let before = restored_clock(clock, list.drop_last());
        if list.last().used > before {
            list.last().used
        } else {
            before
        }
    }
}

/// When each entry was used last.
pub open spec fn uses(entries: Map<Seq<char>, EntryModel>) -> Map<Seq<char>, u64> {
    entries.map_values(|entry: EntryModel| entry.used)
}

/// The entries with their stamps counted anew, in the order in which they were used.
pub open spec fn restamped(entries: Map<Seq<char>, EntryModel>) -> Map<Seq<char>, EntryModel> {
    entries.map_values(
        |entry: EntryModel|
            EntryModel { used: stamps::rank(uses(entries), entry.used) as u64, ..entry },
    )
}

/// Restored entries as they are taken over: where the clock would have no room left to go on
/// counting, their stamps are counted anew.
pub open spec fn settled(
    entries: Map<Seq<char>, EntryModel>,
    clock: u64,
) -> Map<Seq<char>, EntryModel> {
    if clock > stamps::LATEST {
        restamped(entries)
    } else {
        entries
    }
}

/// The clock that goes with [`settled`] entries.
pub open spec fn settled_clock(entries: Map<Seq<char>, EntryModel>, clock: u64) -> u64 {
    if clock > stamps::LATEST {
        entries.len() as u64
    } else {
        clock
    }
}

/// The entries as they are known in the next run: without their age.
pub open spec fn aged(entries: Map<Seq<char>, EntryModel>) -> Map<Seq<char>, EntryModel> {
    entries.map_values(|entry: EntryModel| EntryModel { fetched: None, ..entry })
}

/// Remembered search results.
pub struct SearchCache {
    entries: Table<Entry>,
    clock: u64,
}

impl View for SearchCache {
    type V = Map<Seq<char>, EntryModel>;

    closed spec fn view(&self) -> Map<Seq<char>, EntryModel> {
        entry_models(self.entries@)
    }
}

impl SearchCache {
    /// Every query is remembered once.
    pub closed spec fn wf(&self) -> bool {
        self.entries.wf()
    }

    /// How many reads and writes there were.
    pub closed spec fn clock(&self) -> u64 {
        self.clock
    }

    /// A cache that remembers nothing.
    pub fn new() -> (cache: Self)
        ensures
            cache.wf(),
            cache.clock() == 0,
            cache@ == Map::<Seq<char>, EntryModel>::empty(),
    {
        let cache = SearchCache { entries: Table::new(), clock: 0 };
        assert(cache@ =~= Map::<Seq<char>, EntryModel>::empty());
        cache
    }

    /// How many reads and writes there were.
    pub fn ticks(&self) -> (count: u64)
        ensures
            count == self.clock(),
    {
        self.clock
    }

    /// The number of queries that are remembered.
    pub fn len(&self) -> (count: usize)
        requires
            self.wf(),
        ensures
            count == self@.len(),
    {
        proof {
            lemma_same_len(self.entries@);
        }
        self.entries.len()
    }

    /// Results for exactly this query, if they were fetched recently enough to be served
    /// without asking again.
    pub fn fresh(&mut self, query: &str, now: u128) -> (tracks: Option<Vec<Track>>)
        requires
            old(self).wf(),
            old(self).clock() < u64::MAX,
        ensures
            final(self).wf(),
            final(self).clock() == old(self).clock() + 1,
            final(self)@ == touched(
                old(self)@,
                normalized(query@),
                (old(self).clock() + 1) as u64,
            ),
            (match tracks {
                Some(tracks) => Some(model::track_models(tracks@)),
                None => None,
            }) == served(old(self)@, normalized(query@), now),
    {
        let key = normalize(query);
        let tick = self.tick();
        let found = self.entries.remove(&key);
        if found.is_none() {
            assert(self@ =~= old(self)@);
            return None;
        }
        let mut entry = found.unwrap();
        entry.used = tick;
        let tracks = match entry.fetched {
            Some(fetched) => if now.saturating_sub(fetched) < FRESH_FOR {
                Some(model::copy_tracks(&entry.tracks))
            } else {
                None
            },
            None => None,
        };
        self.entries.insert(key, entry);
        assert(self@ =~= touched(old(self)@, normalized(query@), (old(self).clock() + 1) as u64));
        tracks
    }

    /// Anything already known about this query: an exact hit however old, or failing that
    /// the results of the longest prefix of it that was searched before. The query that
    /// answers counts as used.
    pub fn best_effort(&mut self, query: &str) -> (tracks: Vec<Track>)
        requires
            old(self).wf(),
            old(self).clock() < u64::MAX,
        ensures
            final(self).wf(),
            model::track_models(tracks@) == known(old(self)@, normalized(query@)),
            normalized(query@).len() == 0 ==> final(self)@ == old(self)@ && final(self).clock()
                == old(self).clock(),
            normalized(query@).len() > 0 ==> final(self).clock() == old(self).clock() + 1
                && final(self)@ == consulted(
                old(self)@,
                normalized(query@),
                (old(self).clock() + 1) as u64,
            ),
    {
        let key = normalize(query);
        if key.as_str().is_empty() {
            let none: Vec<Track> = Vec::new();
            assert(model::track_models(none@) =~= Seq::<TrackModel>::empty());
            return none;
        }
        let tick = self.tick();
        let mut prefix = text::chars_of(&key);
        assert(prefix@ =~= key@.take(prefix@.len() as int));
        loop
            invariant
                self.wf(),
                self@ == old(self)@,
                self.clock == old(self).clock + 1,
                tick == self.clock,
                key@ == normalized(query@),
                key@.len() > 0,
                prefix@.len() <= key@.len(),
                prefix@ == key@.take(prefix@.len() as int),
                answering(self@, key@) == longest_known(self@, key@, prefix@.len()),
            decreases prefix@.len(),
        {
            let part = text::string_of(&prefix);
            if let Some(found) = self.entries.remove(&part) {
                let tracks = model::copy_tracks(&found.tracks);
                let entry = Entry { used: tick, ..found };
                self.entries.insert(part, entry);
                assert(self@ =~= touched(old(self)@, prefix@, tick));
                return tracks;
            }
            assert(self@ =~= old(self)@);
            if prefix.len() == 0 {
                let none: Vec<Track> = Vec::new();
                assert(model::track_models(none@) =~= Seq::<TrackModel>::empty());
                return none;
            }
            let _ = prefix.pop();
            assert(prefix@ =~= key@.take(prefix@.len() as int));
        }
    }

    /// Remember the results of a query that came at `now`.
    pub fn store(&mut self, query: &str, tracks: Vec<Track>, now: u128)
        requires
            old(self).wf(),
            old(self).clock() < u64::MAX,
        ensures
            final(self).wf(),
            normalized(query@).len() == 0 ==> final(self)@ == old(self)@ && final(self).clock()
                == old(self).clock(),
            normalized(query@).len() > 0 ==> final(self).clock() == old(self).clock() + 1
                && trimmed_to(
                old(self)@.insert(
                    normalized(query@),
                    EntryModel {
                        tracks: model::track_models(tracks@),
                        used: (old(self).clock() + 1) as u64,
                        fetched: Some(now),
                    },
                ),
                final(self)@,
            ),
            normalized(query@).len() > 0 && in_step(old(self)@, old(self).clock()) ==> in_step(
                final(self)@,
                final(self).clock(),
            ) && forall|later: u128|
                later < now + 600 * 1_000_000_000 ==> #[trigger] served(
                    final(self)@,
                    normalized(query@),
                    later,
                ) == Some(model::track_models(tracks@)),
    {
        let key = normalize(query);
        if key.as_str().is_empty() {
            return;
        }
        let tick = self.tick();
        let entry = Entry { tracks, used: tick, fetched: Some(now) };
        let ghost stored = entry@;
        self.entries.insert(key, entry);
        assert(self@ =~= old(self)@.insert(key@, stored));
        self.trim();
        proof {
            if in_step(old(self)@, old(self).clock) {
                lemma_same_len(old(self).entries@);
                old(self).entries.lemma_entries();
                law_stamps_stay_in_step(old(self)@, self@, old(self).clock, key@, stored);
                assert forall|later: u128| later < now + 600 * 1_000_000_000 implies
                    #[trigger] served(self@, key@, later) == Some(stored.tracks) by {
                    law_a_stored_query_comes_back(
                        old(self)@,
                        self@,
                        old(self).clock,
                        key@,
                        stored.tracks,
                        now,
                        later,
                    );
                }
            }
        }
    }

    fn tick(&mut self) -> (tick: u64)
        requires
            old(self).clock < u64::MAX,
        ensures
            final(self).entries == old(self).entries,
            final(self).clock == old(self).clock + 1,
            tick == final(self).clock,
    {
        self.clock = self.clock + 1;
        self.clock
    }

    /// The query that was used least recently.
    fn oldest(&self) -> (key: String)
        requires
            self.wf(),
            self@.len() > 0,
        ensures
            self@.contains_key(key@),
            forall|other: Seq<char>|
                self@.contains_key(other) ==> self@[key@].used <= (#[trigger] self@[other]).used,
    {
        proof {
            lemma_same_len(self.entries@);
            self.entries.lemma_entries();
        }
        let mut least: usize = 0;
        let count: usize = self.entries.len();
        for i in 1..count
            invariant
                self.wf(),
                count == self.entries@.len(),
                least < self.entries@.len(),
                least < i,
                forall|j: int|
                    #![trigger self.entries.key(j)]
                    0 <= j < i && j < self.entries@.len()
                        ==> self.entries@[self.entries.key(least as int)].used
                        <= self.entries@[self.entries.key(j)].used,
        {
            if self.entries.value_at(i).used < self.entries.value_at(least).used {
                least = i;
            }
        }
        proof {
            self.entries.lemma_entries();
        }
        let key = self.entries.key_at(least).to_owned();
        assert forall|other: Seq<char>| self@.contains_key(other) implies self@[key@].used <= (
        #[trigger] self@[other]).used by {
            assert(self.entries@.contains_key(other));
            let j = choose|j: int|
                0 <= j < self.entries@.len() && #[trigger] self.entries.key(j) == other;
            assert(self.entries@[self.entries.key(least as int)].used
                <= self.entries@[self.entries.key(j)].used);
        }
        key
    }

    /// Drop the least recently used queries once the cache outgrows its budget.
    fn trim(&mut self)
        requires
            old(self).wf(),
        ensures
            final(self).wf(),
            final(self).clock == old(self).clock,
            trimmed_to(old(self)@, final(self)@),
    {
        proof {
            self.entries.lemma_entries();
            lemma_same_len(self.entries@);
        }
        while self.entries.len() > MAX_QUERIES
            invariant
                self.wf(),
                self.clock == old(self).clock,
                self@.submap_of(old(self)@),
                self@.dom().finite(),
                self@.len() == self.entries@.len(),
                self@.len() <= old(self)@.len(),
                old(self)@.len() > MAX_QUERIES ==> self@.len() >= MAX_QUERIES,
                old(self)@.len() <= MAX_QUERIES ==> self@.len() == old(self)@.len(),
                forall|lost: Seq<char>, kept: Seq<char>|
                    old(self)@.contains_key(lost) && !self@.contains_key(lost)
                        && self@.contains_key(kept) ==> #[trigger] old(self)@[lost].used
                        <= #[trigger] self@[kept].used,
            decreases self.entries@.len(),
        {
            let ghost before = self@;
            let key = self.oldest();
            let ghost slots = self.entries@;
            let _ = self.entries.remove(&key);
            proof {
                assert(self@ =~= before.remove(key@));
                self.entries.lemma_entries();
                lemma_same_len(self.entries@);
                table::lemma_part(before, old(self)@, key@);
                assert forall|lost: Seq<char>, kept: Seq<char>|
                    old(self)@.contains_key(lost) && !self@.contains_key(lost)
                        && self@.contains_key(kept) implies #[trigger] old(self)@[lost].used
                    <= #[trigger] self@[kept].used by {
                    assert(before[kept] == self@[kept]);
                    if lost == key@ {
                        assert(before[key@].used <= before[kept].used);
                    }
                }
            }
        }
    }

    /// Count the stamps anew, in the order in which the entries were used.
    fn restamp(&mut self)
        requires
            old(self).wf(),
        ensures
            final(self).wf(),
            final(self)@ == restamped(old(self)@),
            final(self).clock == old(self)@.len(),
    {
        let count: usize = self.entries.len();
        proof {
            lemma_same_len(self.entries@);
            self.entries.lemma_entries();
        }
        let mut list: Vec<u64> = Vec::new();
        for i in 0..count
            invariant
                self.entries.wf(),
                count == self.entries@.len(),
                list@.len() == i,
                forall|j: int|
                    0 <= j < i ==> self.entries@[#[trigger] self.entries.key(j)].used == list@[j],
        {
            list.push(self.entries.value_at(i).used);
        }
        let mut fresh: Table<Entry> = Table::new();
        let ghost whole = restamped(self@);
        for i in 0..count
            invariant
                self.entries.wf(),
                self@ == entry_models(self.entries@),
                whole == restamped(self@),
                count == self.entries@.len(),
                list@.len() == count,
                forall|j: int|
                    0 <= j < count ==> self.entries@[#[trigger] self.entries.key(j)].used == list@[j],
                fresh.wf(),
                forall|key: Seq<char>| #[trigger]
                    fresh@.contains_key(key) <==> exists|j: int|
                        0 <= j < i && #[trigger] self.entries.key(j) == key,
                forall|key: Seq<char>| #[trigger]
                    fresh@.contains_key(key) ==> whole.contains_key(key) && fresh@[key]@
                        == whole[key],
        {
            let ghost before = fresh@;
            let key = self.entries.key_at(i).to_owned();
            let entry = self.entries.value_at(i);
            let used: u64 = stamps::count_below(&list, entry.used);
            proof {
                lemma_same_len(self.entries@);
                self.entries.lemma_entries();
                assert(uses(self@).dom() =~= self.entries@.dom());
                stamps::lemma_rank_is_counted(&self.entries, uses(self@), list@, entry.used);
            }
            let entry = Entry { tracks: model::copy_tracks(&entry.tracks), used, fetched: entry.fetched };
            let ghost kept = entry;
            fresh.insert(key, entry);
            proof {
                assert(fresh@ == before.insert(self.entries.key(i as int), kept));
                assert(kept@ == whole[self.entries.key(i as int)]);
                assert forall|key: Seq<char>| #[trigger] fresh@.contains_key(key) implies exists|
                    j: int,
                | 0 <= j < i + 1 && #[trigger] self.entries.key(j) == key by {
                    if key != self.entries.key(i as int) {
                        assert(before.contains_key(key));
                    }
                }
                assert forall|key: Seq<char>|
                    (exists|j: int| 0 <= j < i + 1 && #[trigger] self.entries.key(j)
                        == key) implies #[trigger] fresh@.contains_key(key) by {
                    if key != self.entries.key(i as int) {
                        assert(before.contains_key(key));
                    }
                }
            }
        }
        proof {
            self.entries.lemma_entries();
            assert(entry_models(fresh@) =~= whole) by {
                assert forall|key: Seq<char>| #[trigger] whole.contains_key(
                    key,
                ) implies fresh@.contains_key(key) by {
                    assert(self.entries@.contains_key(key));
                }
            }
        }
        self.entries = fresh;
        self.clock = count as u64;
    }

    /// Restore what an earlier run remembered, unless that was kept in another format.
    /// Answers whether it was restored.
    pub fn load(&mut self, version: u16, expected: u16, list: Vec<Stored>) -> (restored_all: bool)
        requires
            old(self).wf(),
        ensures
            final(self).wf(),
            restored_all == (version == expected),
            restored_all ==> ({
                let clock = restored_clock(old(self).clock(), list@);
                &&& final(self)@ == settled(restored(old(self)@, list@), clock)
                &&& final(self).clock() == settled_clock(restored(old(self)@, list@), clock)
            }),
            !restored_all ==> final(self)@ == old(self)@ && final(self).clock() == old(
                self,
            ).clock(),
    {
        if version != expected {
            return false;
        }
        let count: usize = list.len();
        let ghost whole = list@;
        let mut list = list;
        let mut done: usize = 0;
        // The entries are taken off the back, so turn them round first.
        let mut turned: Vec<Stored> = Vec::new();
        while done < count
            invariant
                done <= count,
                whole.len() == count,
                list@ =~= whole.take(count - done),
                turned@ =~= whole.skip(count - done).reverse(),
            decreases count - done,
        {
            if let Some(stored) = list.pop() {
                turned.push(stored);
            }
            done = done + 1;
        }
        assert(turned@ =~= whole.reverse());
        let ghost empty = self@;
        done = 0;
        assert(whole.take(0) =~= Seq::empty());
        while done < count
            invariant
                done <= count,
                whole.len() == count,
                turned@ =~= whole.skip(done as int).reverse(),
                self.wf(),
                self.clock == restored_clock(old(self).clock, whole.take(done as int)),
                self@ == restored(empty, whole.take(done as int)),
            decreases count - done,
        {
            if let Some(stored) = turned.pop() {
                let ghost before = self@;
                let ghost item = whole[done as int];
                assert(stored == item);
                // What was used in an earlier run was used before anything in this one.
                if stored.used > self.clock {
                    self.clock = stored.used;
                }
                let entry = Entry { tracks: stored.tracks, used: stored.used, fetched: None };
                self.entries.insert(stored.query, entry);
                proof {
                    assert(whole.take(done + 1).drop_last() =~= whole.take(done as int));
                    assert(self@ =~= before.insert(item.query@, entry@));
                }
            }
            done = done + 1;
        }
        assert(whole.take(count as int) =~= whole);
        if self.clock > stamps::LATEST {
            self.restamp();
        }
        true
    }

    /// Everything that is remembered, to be kept for the next run.
    pub fn saved(&self) -> (list: Vec<Stored>)
        requires
            self.wf(),
        ensures
            list@.len() == self@.len(),
            restored(Map::empty(), list@) == aged(self@),
    {
        let mut list: Vec<Stored> = Vec::new();
        proof {
            lemma_same_len(self.entries@);
            self.entries.lemma_entries();
        }
        let count: usize = self.entries.len();
        for i in 0..count
            invariant
                self.wf(),
                count == self.entries@.len(),
                list@.len() == i,
                self@.len() == self.entries@.len(),
                forall|key: Seq<char>| #[trigger]
                    restored(Map::empty(), list@).contains_key(key) <==> exists|j: int|
                        0 <= j < i && #[trigger] self.entries.key(j) == key,
                forall|key: Seq<char>| #[trigger]
                    restored(Map::empty(), list@).contains_key(key) ==> self@.contains_key(key)
                        && restored(Map::empty(), list@)[key] == aged(self@)[key],
        {
            let ghost before = list@;
            let query = self.entries.key_at(i).to_owned();
            let entry = self.entries.value_at(i);
            list.push(
                Stored { query, tracks: model::copy_tracks(&entry.tracks), used: entry.used },
            );
            proof {
                assert(list@.drop_last() =~= before);
                let last = EntryModel { fetched: None, ..entry@ };
                assert(restored(Map::empty(), list@) == restored(Map::empty(), before).insert(
                    self.entries.key(i as int),
                    last,
                ));
                assert forall|key: Seq<char>| #[trigger]
                    restored(Map::empty(), list@).contains_key(key) implies exists|j: int|
                    0 <= j < i + 1 && #[trigger] self.entries.key(j) == key by {
                    if key == self.entries.key(i as int) {
                    } else {
                        assert(restored(Map::empty(), before).contains_key(key));
                    }
                }
                assert forall|key: Seq<char>|
                    (exists|j: int| 0 <= j < i + 1 && #[trigger] self.entries.key(j)
                        == key) implies #[trigger] restored(Map::empty(), list@).contains_key(
                    key,
                ) by {
                    if key != self.entries.key(i as int) {
                        assert(restored(Map::empty(), before).contains_key(key));
                    }
                }
            }
        }
        proof {
            self.entries.lemma_entries();
            assert forall|key: Seq<char>| #[trigger] self@.contains_key(key) implies restored(
                Map::empty(),
                list@,
            ).contains_key(key) by {
                assert(self.entries@.contains_key(key));
            }
            assert(restored(Map::empty(), list@) =~= aged(self@));
        }
        list
    }
}

/// The models of the entries of a table are as many as its entries.
proof fn lemma_same_len(entries: Map<Seq<char>, Entry>)
    ensures
        entry_models(entries).len() == entries.len(),
        entry_models(entries).dom() == entries.dom(),
{
    assert(entry_models(entries).dom() =~= entries.dom());
}

// ---------------------------------------------------------------------------
// What the cache promises.
// ---------------------------------------------------------------------------

/// Whether no entry was used after `clock`. So it is with every cache: each read and each
/// write stamps its entry with the clock that it has just moved on, and restoring moves the
/// clock on to the latest stamp.
pub open spec fn in_step(entries: Map<Seq<char>, EntryModel>, clock: u64) -> bool {
    forall|key: Seq<char>|
        entries.contains_key(key) ==> (#[trigger] entries[key]).used <= clock
}

/// Reading and writing keep the stamps of the entries in step with the clock.
pub proof fn law_stamps_stay_in_step(
    before: Map<Seq<char>, EntryModel>,
    after: Map<Seq<char>, EntryModel>,
    clock: u64,
    key: Seq<char>,
    entry: EntryModel,
)
    requires
        clock < u64::MAX,
        in_step(before, clock),
        entry.used == clock + 1,
        trimmed_to(before.insert(key, entry), after),
    ensures
        in_step(Map::empty(), 0),
        in_step(touched(before, key, (clock + 1) as u64), (clock + 1) as u64),
        in_step(consulted(before, key, (clock + 1) as u64), (clock + 1) as u64),
        in_step(after, (clock + 1) as u64),
{
    assert forall|other: Seq<char>| after.contains_key(other) implies (
    #[trigger] after[other]).used <= clock + 1 by {
        table::lemma_part(after, before.insert(key, entry), other);
        if other != key {
            assert(before.contains_key(other));
        }
    }
    lemma_touched_in_step(before, clock, key);
    match answering(before, key) {
        Some(prefix) => lemma_touched_in_step(before, clock, prefix),
        None => {
            assert forall|other: Seq<char>| before.contains_key(other) implies (
            #[trigger] before[other]).used <= clock + 1 by {
                assert(before[other].used <= clock);
            }
        },
    }
}

proof fn lemma_touched_in_step(
    before: Map<Seq<char>, EntryModel>,
    clock: u64,
    key: Seq<char>,
)
    requires
        clock < u64::MAX,
        in_step(before, clock),
    ensures
        in_step(touched(before, key, (clock + 1) as u64), (clock + 1) as u64),
{
    assert forall|other: Seq<char>|
        touched(before, key, (clock + 1) as u64).contains_key(other) implies (
    #[trigger] touched(before, key, (clock + 1) as u64)[other]).used <= clock + 1 by {
        assert(before.contains_key(other));
        assert(before[other].used <= clock);
    }
}

/// Restored stamps are in step with the clock, whatever the earlier run has left: so what is
/// stored into a restored cache comes back as it does from any other.
pub proof fn law_restored_stamps_are_in_step(
    before: Map<Seq<char>, EntryModel>,
    clock: u64,
    list: Seq<Stored>,
)
    requires
        in_step(before, clock),
    ensures
        in_step(restored(before, list), restored_clock(clock, list)),
        restored_clock(clock, list) >= clock,
    decreases list.len(),
{
    if list.len() > 0 {
        law_restored_stamps_are_in_step(before, clock, list.drop_last());
        let fewer = restored(before, list.drop_last());
        assert forall|key: Seq<char>| restored(before, list).contains_key(key) implies (
        #[trigger] restored(before, list)[key]).used <= restored_clock(clock, list) by {
            if key != list.last().query@ {
                assert(fewer.contains_key(key));
                assert(fewer[key].used <= restored_clock(clock, list.drop_last()));
            }
        }
    }
}

/// Reading a query keeps it: of two queries, the one that was read is not the one to go for
/// the next that is stored.
pub proof fn law_a_query_that_is_read_outlives_another(
    before: Map<Seq<char>, EntryModel>,
    after: Map<Seq<char>, EntryModel>,
    clock: u64,
    key: Seq<char>,
    other: Seq<char>,
    new: Seq<char>,
    entry: EntryModel,
)
    requires
        clock < u64::MAX,
        in_step(before, clock),
        answering(before, key) matches Some(prefix) && prefix != other && prefix != new,
        other != new,
        trimmed_to(consulted(before, key, (clock + 1) as u64).insert(new, entry), after),
        after.contains_key(other),
    ensures
        after.contains_key(answering(before, key)->0),
{
    let prefix = answering(before, key)->0;
    lemma_answering_is_held(before, key, key.len());
    let read = consulted(before, key, (clock + 1) as u64).insert(new, entry);
    table::lemma_part(after, read, other);
    assert(before.contains_key(other) && before[other].used <= clock);
    if !after.contains_key(prefix) {
        assert(read[prefix].used <= after[other].used);
    }
}

proof fn lemma_answering_is_held(entries: Map<Seq<char>, EntryModel>, key: Seq<char>, len: nat)
    ensures
        longest_known(entries, key, len) matches Some(prefix) ==> entries.contains_key(prefix),
    decreases len,
{
    if len > 0 {
        lemma_answering_is_held(entries, key, (len - 1) as nat);
    }
}

/// What is stored comes back: until it is too old, the query is answered from the cache.
pub proof fn law_a_stored_query_comes_back(
    before: Map<Seq<char>, EntryModel>,
    after: Map<Seq<char>, EntryModel>,
    clock: u64,
    key: Seq<char>,
    tracks: Seq<TrackModel>,
    now: u128,
    later: u128,
)
    requires
        before.dom().finite(),
        clock < u64::MAX,
        in_step(before, clock),
        trimmed_to(
            before.insert(
                key,
                EntryModel { tracks, used: (clock + 1) as u64, fetched: Some(now) },
            ),
            after,
        ),
        later - now < FRESH_FOR,
    ensures
        served(after, key, later) == Some(tracks),
{
    let entry = EntryModel { tracks, used: (clock + 1) as u64, fetched: Some(now) };
    let grown = before.insert(key, entry);
    if !after.contains_key(key) {
        if after.dom() =~= Set::<Seq<char>>::empty() {
            assert(after.len() == 0);
            if grown.dom().len() == 0 {
                assert(grown.dom() =~= Set::<Seq<char>>::empty());
            }
            assert(grown.dom().contains(key));
            assert(false);
        } else {
            let kept = choose|kept: Seq<char>| after.contains_key(kept);
            assert(after.contains_key(kept));
            assert(grown[key].used <= after[kept].used);
            table::lemma_part(after, grown, kept);
            assert(before.contains_key(kept) && before[kept].used <= clock);
            assert(false);
        }
    }
    table::lemma_part(after, grown, key);
}

/// The cache never outgrows its budget, and within it nothing is forgotten.
pub proof fn law_the_cache_stays_within_its_budget(
    before: Map<Seq<char>, EntryModel>,
    after: Map<Seq<char>, EntryModel>,
)
    requires
        before.dom().finite(),
        trimmed_to(before, after),
    ensures
        after.len() <= MAX_QUERIES,
        before.len() <= MAX_QUERIES ==> after == before,
        after.len() <= 256,
        before.len() <= 256 ==> after == before,
        before.len() > 256 ==> after.len() == 256,
{
    if before.len() <= MAX_QUERIES {
        assert(after.dom().subset_of(before.dom())) by {
            assert forall|key: Seq<char>| after.dom().contains(key) implies before.dom().contains(
                key,
            ) by {
                assert(after.contains_key(key));
            }
        }
        vstd::set_lib::lemma_subset_equality(after.dom(), before.dom());
        assert(after =~= before);
    }
}

/// A query is answered by its longest prefix that was searched before, itself included.
pub proof fn law_the_longest_known_prefix_answers(
    entries: Map<Seq<char>, EntryModel>,
    key: Seq<char>,
    len: nat,
)
    requires
        key.len() > 0,
        len <= key.len(),
        entries.contains_key(key.take(len as int)),
        forall|longer: int|
            len < longer <= key.len() ==> !entries.contains_key(#[trigger] key.take(longer)),
    ensures
        answering(entries, key) == Some(key.take(len as int)),
        known(entries, key) == entries[key.take(len as int)].tracks,
{
    lemma_longest(entries, key, len, key.len());
}

proof fn lemma_longest(
    entries: Map<Seq<char>, EntryModel>,
    key: Seq<char>,
    len: nat,
    from: nat,
)
    requires
        len <= from <= key.len(),
        entries.contains_key(key.take(len as int)),
        forall|longer: int|
            len < longer <= key.len() ==> !entries.contains_key(#[trigger] key.take(longer)),
    ensures
        longest_known(entries, key, from) == Some(key.take(len as int)),
    decreases from,
{
    if from > len {
        assert(!entries.contains_key(key.take(from as int)));
        lemma_longest(entries, key, len, (from - 1) as nat);
    }
}

/// A query of which no prefix was searched before is not answered with anything stale.
pub proof fn law_an_unrelated_query_shows_nothing(
    entries: Map<Seq<char>, EntryModel>,
    key: Seq<char>,
)
    requires
        forall|len: int|
            0 <= len <= key.len() ==> !entries.contains_key(#[trigger] key.take(len)),
    ensures
        known(entries, key) == Seq::<TrackModel>::empty(),
{
    lemma_none_known(entries, key, key.len());
}

proof fn lemma_none_known(entries: Map<Seq<char>, EntryModel>, key: Seq<char>, from: nat)
    requires
        from <= key.len(),
        forall|len: int|
            0 <= len <= key.len() ==> !entries.contains_key(#[trigger] key.take(len)),
    ensures
        longest_known(entries, key, from) is None,
    decreases from,
{
    assert(!entries.contains_key(key.take(from as int)));
    if from > 0 {
        lemma_none_known(entries, key, (from - 1) as nat);
    }
}

/// Looking a query up changes no results.
pub proof fn lemma_touch_keeps_results(
    entries: Map<Seq<char>, EntryModel>,
    key: Seq<char>,
    tick: u64,
    query: Seq<char>,
)
    ensures
        known(touched(entries, key, tick), query) == known(entries, query),
{
    lemma_touch_keeps_prefixes(entries, key, tick, query, query.len());
    lemma_answering_is_held(entries, query, query.len());
}

proof fn lemma_touch_keeps_prefixes(
    entries: Map<Seq<char>, EntryModel>,
    key: Seq<char>,
    tick: u64,
    query: Seq<char>,
    len: nat,
)
    ensures
        longest_known(touched(entries, key, tick), query, len) == longest_known(
            entries,
            query,
            len,
        ),
    decreases len,
{
    if len > 0 {
        lemma_touch_keeps_prefixes(entries, key, tick, query, (len - 1) as nat);
    }
}

/// What was restored is never served without asking again once, but it is shown meanwhile.
pub proof fn law_restored_results_are_refreshed(
    entries: Map<Seq<char>, EntryModel>,
    key: Seq<char>,
    now: u128,
)
    requires
        key.len() > 0,
        entries.contains_key(key),
    ensures
        served(aged(entries), key, now) is None,
        known(aged(entries), key) == entries[key].tracks,
{
    assert(key.take(key.len() as int) =~= key);
}

/// What was kept between runs is known again: each entry under its query, unless a later one
/// has taken its place, and none of it is served before it was asked for once. So it is
/// whether or not the stamps had to be counted anew.
pub proof fn law_what_was_kept_is_known_again(list: Seq<Stored>, i: int, clock: u64, now: u128)
    requires
        0 <= i < list.len(),
        normalized(list[i].query@) == list[i].query@,
        list[i].query@.len() > 0,
        forall|j: int| i < j < list.len() ==> (#[trigger] list[j]).query@ != list[i].query@,
    ensures
        ({
            let entries = settled(restored(Map::empty(), list), clock);
            let key = normalized(list[i].query@);
            &&& entries.contains_key(list[i].query@)
            &&& known(entries, key) == model::track_models(list[i].tracks@)
            &&& served(entries, key, now) is None
        }),
{
    lemma_restored_entry(list, i);
    let key = list[i].query@;
    assert(key.take(key.len() as int) =~= key);
}

proof fn lemma_restored_entry(list: Seq<Stored>, i: int)
    requires
        0 <= i < list.len(),
        forall|j: int| i < j < list.len() ==> (#[trigger] list[j]).query@ != list[i].query@,
    ensures
        restored(Map::empty(), list).contains_key(list[i].query@),
        restored(Map::empty(), list)[list[i].query@] == (EntryModel {
            tracks: model::track_models(list[i].tracks@),
            used: list[i].used,
            fetched: None,
        }),
    decreases list.len(),
{
    if i < list.len() - 1 {
        let fewer = list.drop_last();
        assert(fewer[i] == list[i]);
        assert(list.last().query@ != list[i].query@);
        assert forall|j: int| i < j < fewer.len() implies (#[trigger] fewer[j]).query@
            != fewer[i].query@ by {
            assert(fewer[j] == list[j]);
        }
        lemma_restored_entry(fewer, i);
    }
}

/// White space around a query makes no difference to what it is remembered under.
pub proof fn law_blanks_around_a_query_do_not_matter(query: Seq<char>, c: char)
    requires
        text::white_space(c),
    ensures
        normalized(seq![c] + query) == normalized(query),
        normalized(query.push(c)) == normalized(query),
{
    text::lemma_trim_white_space(query, c);
}

/// Of a query in ASCII and in scripts without case, what it is remembered under has no white space around it and no
/// capitals in it, so normalizing it again changes nothing.
pub proof fn law_normalizing_plain_text_twice_changes_nothing(query: Seq<char>)
    requires
        text::plain(query),
    ensures
        text::trimmed(normalized(query)) == normalized(query),
        text::lowercase(normalized(query)) == normalized(query),
        normalized(normalized(query)) == normalized(query),
{
    let inner = text::trimmed(query);
    let key = normalized(query);
    text::lemma_trimmed_ends(query);
    assert(text::plain(inner));
    assert forall|i: int| 0 <= i < key.len() implies (#[trigger] key[i]) <= '\u{7f}'
        || text::caseless(key[i]) by {
        assert(key[i] == text::lowered(inner[i]));
        assert(inner[i] <= '\u{7f}' || text::caseless(inner[i]));
    }
    if key.len() > 0 {
        assert(key[0] == text::lowered(inner[0]));
        assert(key.last() == text::lowered(inner.last()));
        text::lemma_trimmed_ends(key);
    } else {
        assert(text::trimmed(key) =~= key);
    }
    assert(text::lowercase(key) =~= key) by {
        assert forall|i: int| 0 <= i < key.len() implies text::lowered(#[trigger] key[i])
            == key[i] by {
            assert(key[i] == text::lowered(inner[i]));
        }
    }
}

/// Restored entries are taken over with the same contents and in the same order of use, their
/// stamps are in step with the clock, and the clock has room to go on: whatever stamps an
/// earlier run has left, this one can count its own.
pub proof fn law_restored_entries_leave_room(
    entries: Map<Seq<char>, EntryModel>,
    clock: u64,
    one: Seq<char>,
    other: Seq<char>,
)
    requires
        entries.dom().finite(),
        entries.len() <= stamps::LATEST,
        in_step(entries, clock),
        entries.contains_key(one),
        entries.contains_key(other),
    ensures
        settled(entries, clock).dom() == entries.dom(),
        settled(entries, clock)[one].tracks == entries[one].tracks,
        settled(entries, clock)[one].fetched == entries[one].fetched,
        settled(entries, clock)[one].used < settled(entries, clock)[other].used <==> entries[one].used
            < entries[other].used,
        in_step(settled(entries, clock), settled_clock(entries, clock)),
        settled_clock(entries, clock) <= stamps::LATEST,
{
    assert(settled(entries, clock).dom() =~= entries.dom());
    assert(uses(entries).dom() =~= entries.dom());
    stamps::law_ranks_keep_the_order(uses(entries), one, other);
    stamps::law_ranks_keep_the_order(uses(entries), other, one);
    if clock > stamps::LATEST {
        assert forall|key: Seq<char>| restamped(entries).contains_key(key) implies (
        #[trigger] restamped(entries)[key]).used <= entries.len() by {
            stamps::law_ranks_keep_the_order(uses(entries), key, key);
        }
    }
}

/// Results are served without asking again for ten minutes after they came, and no longer;
/// what is served is what was remembered for just that query.
pub proof fn law_results_stay_fresh_for_ten_minutes(
    entries: Map<Seq<char>, EntryModel>,
    key: Seq<char>,
    now: u128,
)
    ensures
        served(entries, key, now) is Some <==> entries.contains_key(key)
            && entries[key].fetched is Some && now < entries[key].fetched->0 + 600 * 1_000_000_000,
        served(entries, key, now) matches Some(tracks) ==> tracks == entries[key].tracks,
{
}

/// Reading a query changes when it was used last and nothing else, of no other query either.
pub proof fn law_reading_only_stamps(
    entries: Map<Seq<char>, EntryModel>,
    key: Seq<char>,
    other: Seq<char>,
    tick: u64,
    now: u128,
)
    ensures
        ({
            let after = touched(entries, key, tick);
            &&& after.contains_key(other) <==> entries.contains_key(other)
            &&& entries.contains_key(other) ==> after[other].tracks == entries[other].tracks
                && after[other].fetched == entries[other].fetched
            &&& entries.contains_key(other) && other != key ==> after[other] == entries[other]
            &&& entries.contains_key(key) ==> after[key].used == tick
            &&& served(after, other, now) == served(entries, other, now)
        }),
{
}

/// Of several stored entries of one query the last one counts, as one of unknown age; a query
/// without any keeps what it had.
pub proof fn law_the_last_stored_entry_counts(
    entries: Map<Seq<char>, EntryModel>,
    list: Seq<Stored>,
    at: int,
    query: Seq<char>,
)
    requires
        0 <= at < list.len(),
        forall|later: int|
            at < later < list.len() ==> (#[trigger] list[later]).query@ != list[at].query@,
        forall|i: int| 0 <= i < list.len() ==> (#[trigger] list[i]).query@ != query,
    ensures
        ({
            let after = restored(entries, list);
            let stored = list[at];
            &&& after.contains_key(stored.query@)
            &&& after[stored.query@].used == stored.used
            &&& after[stored.query@].tracks == model::track_models(stored.tracks@)
            &&& after[stored.query@].fetched is None
            &&& after.contains_key(query) <==> entries.contains_key(query)
            &&& entries.contains_key(query) ==> after[query] == entries[query]
        }),
    decreases list.len(),
{
    let fewer = list.drop_last();
    lemma_unlisted_stays(entries, fewer, query);
    if at < fewer.len() {
        assert forall|later: int| at < later < fewer.len() implies (
        #[trigger] fewer[later]).query@ != fewer[at].query@ by {
            assert(fewer[later] == list[later]);
        }
        assert forall|i: int| 0 <= i < fewer.len() implies (
        #[trigger] fewer[i]).query@ != query by {
            assert(fewer[i] == list[i]);
        }
        assert(list[list.len() - 1].query@ != list[at].query@);
        law_the_last_stored_entry_counts(entries, fewer, at, query);
        assert(fewer[at] == list[at]);
    }
    assert(list[list.len() - 1].query@ != query);
}

proof fn lemma_unlisted_stays(
    entries: Map<Seq<char>, EntryModel>,
    list: Seq<Stored>,
    query: Seq<char>,
)
    ensures
        (forall|i: int| 0 <= i < list.len() ==> (#[trigger] list[i]).query@ != query) ==> (restored(
            entries,
            list,
        ).contains_key(query) <==> entries.contains_key(query)) && (entries.contains_key(query)
            ==> restored(entries, list)[query] == entries[query]),
    decreases list.len(),
{
    if list.len() > 0 && (forall|i: int|
        0 <= i < list.len() ==> (#[trigger] list[i]).query@ != query) {
        let fewer = list.drop_last();
        assert forall|i: int| 0 <= i < fewer.len() implies (
        #[trigger] fewer[i]).query@ != query by {
            assert(fewer[i] == list[i]);
        }
        lemma_unlisted_stays(entries, fewer, query);
        assert(list[list.len() - 1].query@ != query);
    }
}

/// The clock after restoring is the later one of what it was and the latest stamp that was
/// restored, so it jumps no further than it has to.
pub proof fn law_the_clock_follows_the_latest_stamp(clock: u64, list: Seq<Stored>)
    ensures
        restored_clock(clock, list) >= clock,
        forall|i: int|
            0 <= i < list.len() ==> (#[trigger] list[i]).used <= restored_clock(clock, list),
        restored_clock(clock, list) == clock || exists|i: int|
            0 <= i < list.len() && (#[trigger] list[i]).used == restored_clock(clock, list),
    decreases list.len(),
{
    if list.len() > 0 {
        let fewer = list.drop_last();
        law_the_clock_follows_the_latest_stamp(clock, fewer);
        let before = restored_clock(clock, fewer);
        assert forall|i: int| 0 <= i < list.len() implies (#[trigger] list[i]).used
            <= restored_clock(clock, list) by {
            if i < fewer.len() {
                assert(fewer[i] == list[i]);
            }
        }
        if list.last().used > before {
            assert(list[list.len() - 1].used == restored_clock(clock, list));
        } else if before != clock {
            let i = choose|i: int|
                0 <= i < fewer.len() && (#[trigger] fewer[i]).used == before;
            assert(list[i].used == before);
        }
    }
}

} // verus!
