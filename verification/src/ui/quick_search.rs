//! A search overlay for the now playing screen: type, pick one of the top results with a
//! digit, then choose what to do with it. Never leaves the screen.

use vstd::prelude::*;

use crate::canvas;
use crate::canvas::{Effect, Ink, Sheet, Vec2};
#[allow(unused_imports)]
use crate::canvas::Mark;
use crate::model;
use crate::model::Track;
#[allow(unused_imports)]
use crate::model::TrackModel;
use crate::search_cache;
use crate::search_cache::SearchCache;
#[allow(unused_imports)]
use crate::search_cache::EntryModel;
use crate::text;
use crate::ui::input::Input;

verus! {

/// Results shown, and the number of digit keys that pick one.
pub const RESULTS: usize = 4;
/// How long typing has to pause before a query is sent, in milliseconds, so a fast typist
/// makes one request rather than one per keystroke. Short, because the list is filled from
/// the library and the cache while the request is in flight.
pub const DEBOUNCE_MS: u64 = 120;
/// Results asked for. More than are shown, so the cache is worth reusing for the next
/// keystroke and costs no extra round trip.
pub const FETCH: u32 = 20;
/// How many library hits can take the top of the list before catalogue results.
pub const LOCAL_SLOTS: usize = 2;
/// The width of the overlay.
pub const WIDTH: usize = 62;

/// What the next keypress means. Digits always pick a result the moment there is one to
/// pick, so choosing and playing is two keys and never more; a digit that belongs in the
/// query goes in with Alt held.
#[derive(Clone, Copy, PartialEq, Eq, Structural, Debug)]
pub enum Stage {
    Typing,
    /// A result is chosen and is waiting for an action key.
    Acting(usize),
}

/// What a chosen result can be turned into.
#[derive(Clone, Copy, PartialEq, Eq, Structural, Debug)]
pub enum Action {
    PlayNext,
    PlayNow,
    /// Play it now, then fill the queue behind it with tracks like it.
    Radio,
}

// ---------------------------------------------------------------------------
// Finding tracks.
// ---------------------------------------------------------------------------

/// How well a track matches, lower being better.
pub open spec fn score(track: TrackModel, needle: Seq<char>) -> Option<u8> {
    let title = text::lowercase(track.title);
    let artists = text::lowercase(text::joined(track.artists, ", "@));
    let album = text::lowercase(
        match track.album {
            Some(album) => album,
            None => ""@,
        },
    );
    if needle.is_prefix_of(title) {
        Some(0)
    } else if needle.is_prefix_of(artists) {
        Some(1)
    } else if text::occurs(title, needle) {
        Some(2)
    } else if text::occurs(artists, needle) {
        Some(3)
    } else if text::occurs(album, needle) {
        Some(4)
    } else {
        None
    }
}

/// How well a saved track matches, lower being better. `None` means it does not.
pub fn local_score(track: &Track, needle: &str) -> (found: Option<u8>)
    ensures
        found == score(track@, needle@),
        found matches Some(score) ==> score <= 4,
{
    let title = text::to_lowercase(&track.title);
    if text::starts_with(&title, needle) {
        return Some(0);
    }
    let artists = text::to_lowercase(&text::join(&track.artists, ", "));
    if text::starts_with(&artists, needle) {
        return Some(1);
    }
    if text::contains(&title, needle) {
        return Some(2);
    }
    if text::contains(&artists, needle) {
        return Some(3);
    }
    let album = text::to_lowercase(
        match &track.album {
            Some(album) => album.as_str(),
            None => "",
        },
    );
    if text::contains(&album, needle) {
        return Some(4);
    }
    None
}

/// The tracks that match just so well, in the order of the library.
pub open spec fn scoring(
    library: Seq<TrackModel>,
    needle: Seq<char>,
    wanted: int,
) -> Seq<TrackModel> {
    library.filter(
        |track: TrackModel| score(track, needle) matches Some(found) && found == wanted,
    )
}

/// The tracks that match at least so well, the best first; those that match equally well
/// stay in the order of the library.
pub open spec fn ranked(
    library: Seq<TrackModel>,
    needle: Seq<char>,
    worst: int,
) -> Seq<TrackModel>
    decreases worst + 1,
{
    if worst < 0 {
        Seq::empty()
    } else {
        ranked(library, needle, worst - 1) + scoring(library, needle, worst)
    }
}

/// The first `count` of a list, or all of it where it is shorter.
pub open spec fn first_of<T>(list: Seq<T>, count: nat) -> Seq<T> {
    if list.len() <= count {
        list
    } else {
        list.take(count as int)
    }
}

/// The tracks of the saved library that are shown for `query`.
pub open spec fn local_found(library: Seq<TrackModel>, query: Seq<char>) -> Seq<TrackModel> {
    let needle = search_cache::normalized(query);
    if needle.len() == 0 {
        Seq::empty()
    } else {
        first_of(ranked(library, needle, 4), LOCAL_SLOTS as nat)
    }
}

/// Tracks in the saved library that match `query`, best match first.
///
/// This needs no network at all: the library is already in memory, so these land on the
/// very keystroke.
pub fn local_matches(library: &Vec<Track>, query: &str) -> (found: Vec<Track>)
    ensures
        model::track_models(found@) == local_found(model::track_models(library@), query@),
{
    let needle = search_cache::normalize(query);
    let mut found: Vec<Track> = Vec::new();
    assert(model::track_models(found@) =~= Seq::<TrackModel>::empty());
    if needle.as_str().is_empty() {
        return found;
    }
    let mut scores: Vec<Option<u8>> = Vec::new();
    for i in 0..library.len()
        invariant
            scores@.len() == i,
            forall|j: int| 0 <= j < i ==> #[trigger] scores@[j] == score(library@[j]@, needle@),
    {
        scores.push(local_score(&library[i], &needle));
    }
    let ghost tracks = model::track_models(library@);
    for wanted in 0..5u8
        invariant
            scores@.len() == library@.len(),
            forall|j: int|
                0 <= j < library@.len() ==> #[trigger] scores@[j] == score(library@[j]@, needle@),
            tracks == model::track_models(library@),
            model::track_models(found@) == first_of(
                ranked(tracks, needle@, wanted - 1),
                LOCAL_SLOTS as nat,
            ),
    {
        let ghost better = ranked(tracks, needle@, wanted - 1);
        assert(tracks.take(0) =~= Seq::empty());
        proof {
            reveal(Seq::filter);
            assert(better + scoring(Seq::empty(), needle@, wanted as int) =~= better);
        }
        for i in 0..library.len()
            invariant
                scores@.len() == library@.len(),
                forall|j: int|
                    0 <= j < library@.len() ==> #[trigger] scores@[j] == score(
                        library@[j]@,
                        needle@,
                    ),
                tracks == model::track_models(library@),
                model::track_models(found@) == first_of(
                    better + scoring(tracks.take(i as int), needle@, wanted as int),
                    LOCAL_SLOTS as nat,
                ),
        {
            let ghost so_far = better + scoring(tracks.take(i as int), needle@, wanted as int);
            let ghost next = better + scoring(tracks.take(i + 1), needle@, wanted as int);
            proof {
                reveal(Seq::filter);
                assert(tracks.take(i + 1).drop_last() =~= tracks.take(i as int));
                assert(tracks.take(i + 1).last() == library@[i as int]@);
            }
            let hit = match scores[i] {
                Some(found) => found == wanted,
                None => false,
            };
            if hit {
                assert(next =~= so_far.push(library@[i as int]@));
                if found.len() < LOCAL_SLOTS {
                    let ghost before = found@;
                    found.push(library[i].clone());
                    assert(model::track_models(found@) =~= model::track_models(before).push(
                        library@[i as int]@,
                    ));
                    assert(model::track_models(found@) =~= first_of(next, LOCAL_SLOTS as nat));
                } else {
                    assert(model::track_models(found@).len() == found@.len());
                    assert(first_of(next, LOCAL_SLOTS as nat) =~= first_of(
                        so_far,
                        LOCAL_SLOTS as nat,
                    ));
                }
            } else {
                assert(next =~= so_far);
            }
        }
        assert(tracks.take(tracks.len() as int) =~= tracks);
    }
    found
}

/// Whether a track with this URI is in the list.
pub open spec fn has_uri(list: Seq<TrackModel>, uri: Seq<char>) -> bool {
    exists|i: int| 0 <= i < list.len() && (#[trigger] list[i]).uri == uri
}

/// The list without the tracks that stood in it before.
pub open spec fn unrepeated(list: Seq<TrackModel>) -> Seq<TrackModel>
    decreases list.len(),
{
    if list.len() == 0 {
        Seq::empty()
    } else {
        let before = unrepeated(list.drop_last());
        if has_uri(before, list.last().uri) {
            before
        } else {
            before.push(list.last())
        }
    }
}

/// Library hits ahead of catalogue results, without repeats, as many as can be shown.
pub open spec fn merged(local: Seq<TrackModel>, remote: Seq<TrackModel>) -> Seq<TrackModel> {
    first_of(unrepeated(local + remote), RESULTS as nat)
}

fn holds_uri(list: &Vec<Track>, uri: &str) -> (held: bool)
    ensures
        held == has_uri(model::track_models(list@), uri@),
{
    for i in 0..list.len()
        invariant
            forall|j: int| 0 <= j < i ==> (#[trigger] model::track_models(list@)[j]).uri != uri@,
    {
        if text::same(&list[i].uri, uri) {
            assert(model::track_models(list@)[i as int].uri == uri@);
            return true;
        }
    }
    false
}

/// Add one track to a merged list.
fn add_unrepeated(list: &mut Vec<Track>, track: &Track, Ghost(seen): Ghost<Seq<TrackModel>>)
    requires
        model::track_models(old(list)@) == first_of(unrepeated(seen), RESULTS as nat),
    ensures
        model::track_models(final(list)@) == first_of(
            unrepeated(seen.push(track@)),
            RESULTS as nat,
        ),
{
    let ghost before = list@;
    proof {
        assert(seen.push(track@).drop_last() =~= seen);
        assert(model::track_models(before).len() == before.len());
    }
    let ghost whole = unrepeated(seen);
    let ghost next = unrepeated(seen.push(track@));
    if list.len() == RESULTS {
        assert(first_of(next, RESULTS as nat) =~= first_of(whole, RESULTS as nat));
        return;
    }
    assert(first_of(whole, RESULTS as nat) == whole);
    if !holds_uri(list, &track.uri) {
        list.push(track.clone());
        assert(model::track_models(list@) =~= model::track_models(before).push(track@));
    }
}

/// Library hits ahead of catalogue results, without repeating a track that is in both,
/// trimmed to what the overlay can show.
pub fn merge(local: &Vec<Track>, remote: &Vec<Track>) -> (list: Vec<Track>)
    ensures
        model::track_models(list@) == merged(
            model::track_models(local@),
            model::track_models(remote@),
        ),
{
    let mut list: Vec<Track> = Vec::new();
    let ghost ours = model::track_models(local@);
    let ghost theirs = model::track_models(remote@);
    assert(ours.take(0) =~= Seq::empty());
    assert(model::track_models(list@) =~= Seq::<TrackModel>::empty());
    for i in 0..local.len()
        invariant
            ours == model::track_models(local@),
            model::track_models(list@) == first_of(
                unrepeated(ours.take(i as int)),
                RESULTS as nat,
            ),
    {
        add_unrepeated(&mut list, &local[i], Ghost(ours.take(i as int)));
        assert(ours.take(i as int).push(local@[i as int]@) =~= ours.take(i + 1));
    }
    assert(ours.take(ours.len() as int) + theirs.take(0) =~= ours.take(ours.len() as int));
    assert(ours.take(ours.len() as int) =~= ours);
    for i in 0..remote.len()
        invariant
            theirs == model::track_models(remote@),
            model::track_models(list@) == first_of(
                unrepeated(ours + theirs.take(i as int)),
                RESULTS as nat,
            ),
    {
        add_unrepeated(&mut list, &remote[i], Ghost(ours + theirs.take(i as int)));
        assert((ours + theirs.take(i as int)).push(remote@[i as int]@) =~= ours + theirs.take(
            i + 1,
        ));
    }
    assert(theirs.take(theirs.len() as int) =~= theirs);
    list
}

/// Where the covers of a list of tracks are found.
pub open spec fn cover_urls(tracks: Seq<TrackModel>) -> Seq<Seq<char>>
    decreases tracks.len(),
{
    if tracks.len() == 0 {
        Seq::empty()
    } else {
        match tracks.last().cover_url {
            Some(url) => cover_urls(tracks.drop_last()).push(url),
            None => cover_urls(tracks.drop_last()),
        }
    }
}

/// The covers to warm the cache with for what is on screen, so art for a track that gets
/// played is already there.
pub fn covers_of(tracks: &Vec<Track>) -> (urls: Vec<String>)
    ensures
        text::texts(urls@) == cover_urls(model::track_models(tracks@)),
{
    let mut urls: Vec<String> = Vec::new();
    let ghost models = model::track_models(tracks@);
    assert(models.take(0) =~= Seq::empty());
    assert(text::texts(urls@) =~= Seq::<Seq<char>>::empty());
    for i in 0..tracks.len()
        invariant
            models == model::track_models(tracks@),
            text::texts(urls@) == cover_urls(models.take(i as int)),
    {
        let ghost before = urls@;
        assert(models.take(i + 1).drop_last() =~= models.take(i as int));
        assert(models.take(i + 1).last() == tracks@[i as int]@);
        if let Some(url) = &tracks[i].cover_url {
            urls.push(url.clone());
            assert(text::texts(urls@) =~= text::texts(before).push(url@));
        }
    }
    assert(models.take(models.len() as int) =~= models);
    urls
}

/// What is queued behind a track that was made into a station.
pub open spec fn station_of(found: Seq<TrackModel>, seed: Seq<char>) -> Seq<TrackModel> {
    found.filter(|track: TrackModel| track.uri != seed)
}

/// The tracks to queue behind the seed of a station. The seed is already playing, so it
/// does not want queueing again.
pub fn station(found: &Vec<Track>, seed: &str) -> (rest: Vec<Track>)
    ensures
        model::track_models(rest@) == station_of(model::track_models(found@), seed@),
{
    let mut rest: Vec<Track> = Vec::new();
    let ghost models = model::track_models(found@);
    assert(models.take(0) =~= Seq::empty());
    assert(model::track_models(rest@) =~= Seq::<TrackModel>::empty());
    proof {
        reveal(Seq::filter);
    }
    for i in 0..found.len()
        invariant
            models == model::track_models(found@),
            model::track_models(rest@) == station_of(models.take(i as int), seed@),
    {
        let ghost before = rest@;
        proof {
            reveal(Seq::filter);
            assert(models.take(i + 1).drop_last() =~= models.take(i as int));
            assert(models.take(i + 1).last() == found@[i as int]@);
        }
        if !text::same(&found[i].uri, seed) {
            rest.push(found[i].clone());
            assert(model::track_models(rest@) =~= model::track_models(before).push(
                found@[i as int]@,
            ));
        }
    }
    assert(models.take(models.len() as int) =~= models);
    rest
}

// ---------------------------------------------------------------------------
// The overlay.
// ---------------------------------------------------------------------------

/// What the overlay shows.
pub struct Results {
    /// The query these results belong to, shown while a newer one is in flight.
    pub query: String,
    pub tracks: Vec<Track>,
    pub searching: bool,
    pub failed: bool,
}

/// [`Results`] as the contracts speak of them.
#[verifier::ext_equal]
pub struct ResultsModel {
    pub query: Seq<char>,
    pub tracks: Seq<TrackModel>,
    pub searching: bool,
    pub failed: bool,
}

impl View for Results {
    type V = ResultsModel;

    open spec fn view(&self) -> ResultsModel {
        ResultsModel {
            query: self.query@,
            tracks: model::track_models(self.tracks@),
            searching: self.searching,
            failed: self.failed,
        }
    }
}

/// Nothing found, nothing searched for.
pub open spec fn no_results() -> ResultsModel {
    ResultsModel {
        query: Seq::empty(),
        tracks: Seq::empty(),
        searching: false,
        failed: false,
    }
}

impl Results {
    /// Nothing found, nothing searched for.
    pub fn new() -> (results: Self)
        ensures
            results@ == no_results(),
    {
        let results = Results {
            query: String::new(),
            tracks: Vec::new(),
            searching: false,
            failed: false,
        };
        assert(results@ =~= no_results());
        results
    }
}

/// A search to send once typing has paused.
pub struct Request {
    /// The search is dropped unless it is still the newest.
    pub generation: u64,
    pub query: String,
    /// The library hits that stay on top of what is found.
    pub local: Vec<Track>,
}

/// A [`Request`] as the contracts speak of it.
#[verifier::ext_equal]
pub struct RequestModel {
    pub generation: u64,
    pub query: Seq<char>,
    pub local: Seq<TrackModel>,
}

impl View for Request {
    type V = RequestModel;

    open spec fn view(&self) -> RequestModel {
        RequestModel {
            generation: self.generation,
            query: self.query@,
            local: model::track_models(self.local@),
        }
    }
}

/// What a changed query calls for.
pub enum Search {
    /// There is nothing to search for.
    Cleared,
    /// The results were at hand; their covers are worth fetching.
    Known(Vec<String>),
    /// The catalogue has to be asked.
    Ask(Request),
}

/// A [`Search`] as the contracts speak of it.
#[verifier::ext_equal]
pub enum SearchModel {
    Cleared,
    Known(Seq<Seq<char>>),
    Ask(RequestModel),
}

impl View for Search {
    type V = SearchModel;

    open spec fn view(&self) -> SearchModel {
        match self {
            Search::Cleared => SearchModel::Cleared,
            Search::Known(urls) => SearchModel::Known(text::texts(urls@)),
            Search::Ask(request) => SearchModel::Ask(request@),
        }
    }
}

/// What the catalogue answered.
pub enum Reply {
    Tracks(Vec<Track>),
    /// An answer to some other question.
    Unexpected,
    Failed,
}

/// What became of an answer.
pub enum Landing {
    /// A newer search has taken its place.
    Stale,
    /// It changed what is shown, but there is nothing to remember.
    Shown,
    /// Its results were remembered; the cache is worth writing out, the covers worth
    /// fetching.
    Stored(Vec<String>),
}

/// What an event does.
pub enum Outcome {
    /// It is left to others.
    Ignored,
    Consumed,
    /// The overlay closes.
    Close,
    /// The query changed.
    Searched(Search),
    /// The overlay closes and something is done with a track, if it is still there.
    Act(Action, Option<Track>),
}

/// An [`Outcome`] as the contracts speak of it.
#[verifier::ext_equal]
pub enum OutcomeModel {
    Ignored,
    Consumed,
    Close,
    Searched(SearchModel),
    Act(Action, Option<TrackModel>),
}

impl View for Outcome {
    type V = OutcomeModel;

    open spec fn view(&self) -> OutcomeModel {
        match self {
            Outcome::Ignored => OutcomeModel::Ignored,
            Outcome::Consumed => OutcomeModel::Consumed,
            Outcome::Close => OutcomeModel::Close,
            Outcome::Searched(search) => OutcomeModel::Searched(search@),
            Outcome::Act(action, track) => OutcomeModel::Act(
                *action,
                match track {
                    Some(track) => Some(track@),
                    None => None,
                },
            ),
        }
    }
}

/// A search overlay.
pub struct QuickSearch {
    pub query: String,
    pub stage: Stage,
    pub results: Results,
    /// Bumped on every keystroke; a search only lands if it is still the newest.
    pub generation: u64,
}

/// A [`QuickSearch`] as the contracts speak of it.
#[verifier::ext_equal]
pub struct OverlayModel {
    pub query: Seq<char>,
    pub stage: Stage,
    pub results: ResultsModel,
    pub generation: u64,
}

impl View for QuickSearch {
    type V = OverlayModel;

    open spec fn view(&self) -> OverlayModel {
        OverlayModel {
            query: self.query@,
            stage: self.stage,
            results: self.results@,
            generation: self.generation,
        }
    }
}

/// What an overlay draws on: the saved library, what earlier searches found, and the time.
pub struct Shelf {
    pub library: Seq<TrackModel>,
    pub cache: Map<Seq<char>, EntryModel>,
    pub now: u128,
}

/// What is on hand for a query: library hits first, then the results of this query or of
/// the longest prefix of it that was searched before.
pub open spec fn at_hand(shelf: Shelf, query: Seq<char>) -> Seq<TrackModel> {
    let key = search_cache::normalized(query);
    merged(
        local_found(shelf.library, query),
        match search_cache::served(shelf.cache, key, shelf.now) {
            Some(tracks) => tracks,
            None => search_cache::known(shelf.cache, key),
        },
    )
}

/// Whether the catalogue has to be asked about a query.
pub open spec fn must_ask(shelf: Shelf, query: Seq<char>) -> bool {
    search_cache::served(shelf.cache, search_cache::normalized(query), shelf.now) is None
}

/// The overlay after its query was searched for.
pub open spec fn searched(overlay: OverlayModel, shelf: Shelf) -> OverlayModel {
    let query = text::trimmed(overlay.query);
    OverlayModel {
        generation: (overlay.generation + 1) as u64,
        results: if query.len() == 0 {
            no_results()
        } else {
            ResultsModel {
                query,
                tracks: at_hand(shelf, query),
                searching: must_ask(shelf, query),
                failed: false,
            }
        },
        ..overlay
    }
}

/// What searching for the query of an overlay calls for.
pub open spec fn search_of(overlay: OverlayModel, shelf: Shelf) -> SearchModel {
    let query = text::trimmed(overlay.query);
    if query.len() == 0 {
        SearchModel::Cleared
    } else if must_ask(shelf, query) {
        SearchModel::Ask(
            RequestModel {
                generation: (overlay.generation + 1) as u64,
                query,
                local: local_found(shelf.library, query),
            },
        )
    } else {
        SearchModel::Known(cover_urls(at_hand(shelf, query)))
    }
}

/// The cache after what is on hand for `key` was looked up: results that still count are
/// read once, anything else is read again for what is known however old.
pub open spec fn looked_up(
    shelf: Shelf,
    key: Seq<char>,
    clock: u64,
) -> Map<Seq<char>, EntryModel> {
    let read = search_cache::touched(shelf.cache, key, (clock + 1) as u64);
    if search_cache::served(shelf.cache, key, shelf.now) is Some {
        read
    } else {
        search_cache::consulted(read, key, (clock + 2) as u64)
    }
}

/// The clock of the cache after `key` was looked up: each read is one tick.
pub open spec fn looked_up_clock(shelf: Shelf, key: Seq<char>, clock: u64) -> u64 {
    if search_cache::served(shelf.cache, key, shelf.now) is Some || key.len() == 0 {
        (clock + 1) as u64
    } else {
        (clock + 2) as u64
    }
}

/// The cache after a query was searched for.
pub open spec fn cache_after(
    query: Seq<char>,
    shelf: Shelf,
    clock: u64,
) -> Map<Seq<char>, EntryModel> {
    if text::trimmed(query).len() == 0 {
        shelf.cache
    } else {
        looked_up(shelf, search_cache::normalized(text::trimmed(query)), clock)
    }
}

/// The clock of the cache after a query was searched for.
pub open spec fn clock_after(query: Seq<char>, shelf: Shelf, clock: u64) -> u64 {
    if text::trimmed(query).len() == 0 {
        clock
    } else {
        looked_up_clock(shelf, search_cache::normalized(text::trimmed(query)), clock)
    }
}

/// The overlay after an answer came to a request that is still the newest.
pub open spec fn answered(
    overlay: OverlayModel,
    request: RequestModel,
    reply: Reply,
) -> OverlayModel {
    let shown = overlay.results;
    OverlayModel {
        results: match reply {
            Reply::Tracks(found) => ResultsModel {
                query: request.query,
                tracks: merged(request.local, model::track_models(found@)),
                searching: false,
                failed: false,
            },
            Reply::Unexpected => ResultsModel { query: request.query, searching: false, ..shown },
            Reply::Failed => ResultsModel {
                query: request.query,
                searching: false,
                failed: shown.tracks.len() == 0,
                ..shown
            },
        },
        ..overlay
    }
}

/// The result that a digit numbers.
pub open spec fn digit_index(c: char) -> Option<int> {
    match c {
        '1' => Some(0),
        '2' => Some(1),
        '3' => Some(2),
        '4' => Some(3),
        _ => None,
    }
}

/// What a key does with a chosen result.
pub open spec fn action_of(key: char) -> Option<Action> {
    match key {
        '1' => Some(Action::PlayNext),
        '2' => Some(Action::PlayNow),
        '3' => Some(Action::Radio),
        _ => None,
    }
}

/// What an event means to an overlay, before anything is searched for.
pub enum Keystroke {
    Ignored,
    /// The overlay closes.
    Close,
    /// Another stage begins.
    Enter(Stage),
    Nothing,
    /// The query becomes this one, and is searched for.
    Retype(Seq<char>),
    /// The chosen result is turned into something, and the overlay closes.
    Act(usize, Action),
}

/// What an event means to an overlay.
pub open spec fn keystroke(overlay: OverlayModel, event: Input) -> Keystroke {
    match (overlay.stage, event) {
        (Stage::Typing, Input::Esc) => Keystroke::Close,
        (Stage::Acting(_), Input::Esc) => Keystroke::Enter(Stage::Typing),
        (Stage::Typing, Input::Backspace) => Keystroke::Retype(
            if overlay.query.len() == 0 {
                overlay.query
            } else {
                overlay.query.drop_last()
            },
        ),
        (Stage::Typing, Input::Enter) => if overlay.results.tracks.len() > 0 {
            Keystroke::Enter(Stage::Acting(0))
        } else {
            Keystroke::Nothing
        },
        (Stage::Typing, Input::AltChar(c)) => Keystroke::Retype(overlay.query.push(c)),
        (Stage::Typing, Input::Char(c)) => match digit_index(c) {
            Some(index) if index < overlay.results.tracks.len() => Keystroke::Enter(
                Stage::Acting(index as usize),
            ),
            _ => Keystroke::Retype(overlay.query.push(c)),
        },
        (Stage::Acting(index), Input::Char(c)) => match action_of(c) {
            Some(action) => Keystroke::Act(index, action),
            None => Keystroke::Retype(overlay.query.push(c)),
        },
        _ => Keystroke::Ignored,
    }
}

/// The overlay after an event.
pub open spec fn after_event(overlay: OverlayModel, event: Input, shelf: Shelf) -> OverlayModel {
    match keystroke(overlay, event) {
        Keystroke::Enter(stage) => OverlayModel { stage, ..overlay },
        Keystroke::Retype(query) => searched(
            OverlayModel { query, stage: Stage::Typing, ..overlay },
            shelf,
        ),
        _ => overlay,
    }
}

/// What an event does.
pub open spec fn outcome_of(overlay: OverlayModel, event: Input, shelf: Shelf) -> OutcomeModel {
    match keystroke(overlay, event) {
        Keystroke::Ignored => OutcomeModel::Ignored,
        Keystroke::Close => OutcomeModel::Close,
        Keystroke::Enter(_) | Keystroke::Nothing => OutcomeModel::Consumed,
        Keystroke::Retype(query) => OutcomeModel::Searched(
            search_of(OverlayModel { query, ..overlay }, shelf),
        ),
        Keystroke::Act(index, action) => OutcomeModel::Act(
            action,
            if index < overlay.results.tracks.len() {
                Some(overlay.results.tracks[index as int])
            } else {
                None
            },
        ),
    }
}

impl QuickSearch {
    /// An overlay with an empty query.
    pub fn new() -> (overlay: Self)
        ensures
            overlay@ == (OverlayModel {
                query: Seq::empty(),
                stage: Stage::Typing,
                results: no_results(),
                generation: 0,
            }),
    {
        QuickSearch {
            query: String::new(),
            stage: Stage::Typing,
            results: Results::new(),
            generation: 0,
        }
    }

    /// Fill the list from what is already known, so it is never empty while a request is
    /// out. Answers whether that is all there is to know.
    pub fn show_known(
        &mut self,
        query: &str,
        library: &Vec<Track>,
        cache: &mut SearchCache,
        now: u128,
    ) -> (complete: bool)
        requires
            old(cache).wf(),
            old(cache).clock() < u64::MAX - 1,
        ensures
            ({
                let shelf = Shelf {
                    library: model::track_models(library@),
                    cache: old(cache)@,
                    now,
                };
                &&& complete == !must_ask(shelf, query@)
                &&& final(self)@ == (OverlayModel {
                    results: ResultsModel {
                        query: query@,
                        tracks: at_hand(shelf, query@),
                        failed: false,
                        searching: old(self).results.searching,
                    },
                    ..old(self)@
                })
                &&& final(cache)@ == looked_up(
                    shelf,
                    search_cache::normalized(query@),
                    old(cache).clock(),
                )
                &&& final(cache).clock() == looked_up_clock(
                    shelf,
                    search_cache::normalized(query@),
                    old(cache).clock(),
                )
            }),
            final(cache).wf(),
    {
        let ghost remembered = cache@;
        let ghost key = search_cache::normalized(query@);
        let local = local_matches(library, query);
        let fresh = cache.fresh(query, now);
        let complete = fresh.is_some();
        let known = match fresh {
            Some(tracks) => tracks,
            None => {
                let tracks = cache.best_effort(query);
                proof {
                    search_cache::lemma_touch_keeps_results(
                        remembered,
                        key,
                        (old(cache).clock() + 1) as u64,
                        key,
                    );
                }
                tracks
            },
        };
        self.results.query = query.to_owned();
        self.results.failed = false;
        self.results.tracks = merge(&local, &known);
        complete
    }

    /// Search for the current query, in place of any pending search.
    pub fn schedule_search(
        &mut self,
        library: &Vec<Track>,
        cache: &mut SearchCache,
        now: u128,
    ) -> (search: Search)
        requires
            old(self).generation < u64::MAX,
            old(cache).wf(),
            old(cache).clock() < u64::MAX - 1,
        ensures
            ({
                let shelf = Shelf {
                    library: model::track_models(library@),
                    cache: old(cache)@,
                    now,
                };
                &&& final(self)@ == searched(old(self)@, shelf)
                &&& search@ == search_of(old(self)@, shelf)
                &&& final(cache)@ == cache_after(old(self).query@, shelf, old(cache).clock())
                &&& final(cache).clock() == clock_after(
                    old(self).query@,
                    shelf,
                    old(cache).clock(),
                )
            }),
            final(cache).wf(),
    {
        self.generation = self.generation + 1;
        let query = text::trim(&self.query);
        if query.as_str().is_empty() {
            self.results = Results::new();
            return Search::Cleared;
        }
        // Everything already on hand goes up immediately; a fresh cache hit means there is
        // nothing left to ask for.
        if self.show_known(&query, library, cache, now) {
            self.results.searching = false;
            return Search::Known(covers_of(&self.results.tracks));
        }
        self.results.searching = true;
        let local = local_matches(library, &query);
        Search::Ask(Request { generation: self.generation, query, local })
    }

    /// Take the answer to a request. A keystroke since then means that another search has
    /// superseded it.
    pub fn land(
        &mut self,
        cache: &mut SearchCache,
        request: Request,
        reply: Reply,
        now: u128,
    ) -> (landing: Landing)
        requires
            old(cache).wf(),
            old(cache).clock() < u64::MAX,
        ensures
            final(cache).wf(),
            old(self).generation != request.generation ==> landing is Stale && final(self)@
                == old(self)@ && final(cache)@ == old(cache)@ && final(cache).clock() == old(
                cache,
            ).clock(),
            old(self).generation == request.generation ==> final(self)@ == answered(
                old(self)@,
                request@,
                reply,
            ),
            old(self).generation == request.generation ==> match reply {
                Reply::Tracks(found) => {
                    &&& landing matches Landing::Stored(urls) && text::texts(urls@) == cover_urls(
                        final(self)@.results.tracks,
                    )
                    &&& search_cache::normalized(request.query@).len() > 0
                        ==> search_cache::trimmed_to(
                        old(cache)@.insert(
                            search_cache::normalized(request.query@),
                            EntryModel {
                                tracks: model::track_models(found@),
                                used: (old(cache).clock() + 1) as u64,
                                fetched: Some(now),
                            },
                        ),
                        final(cache)@,
                    ) && final(cache).clock() == old(cache).clock() + 1
                    &&& search_cache::normalized(request.query@).len() == 0 ==> final(cache)@
                        == old(cache)@ && final(cache).clock() == old(cache).clock()
                },
                _ => landing is Shown && final(cache)@ == old(cache)@ && final(cache).clock()
                    == old(cache).clock(),
            },
            landing is Stale <==> old(self).generation != request.generation,
            landing is Stored <==> old(self).generation == request.generation && reply is Tracks,
            final(self)@.query == old(self)@.query,
            final(self)@.stage == old(self)@.stage,
            landing is Stored && search_cache::normalized(request.query@).len() > 0
                && search_cache::in_step(old(cache)@, old(cache).clock())
                ==> search_cache::served(
                final(cache)@,
                search_cache::normalized(request.query@),
                now,
            ) == Some(model::track_models(reply->Tracks_0@)),
    {
        if self.generation != request.generation {
            return Landing::Stale;
        }
        self.results.searching = false;
        self.results.query = request.query.clone();
        match reply {
            Reply::Tracks(found) => {
                self.results.failed = false;
                self.results.tracks = merge(&request.local, &found);
                // Remember the whole page, not just what is shown, so the next keystroke
                // has something to fall back on.
                cache.store(&request.query, found, now);
                Landing::Stored(covers_of(&self.results.tracks))
            },
            Reply::Unexpected => Landing::Shown,
            Reply::Failed => {
                // Keep whatever was already on screen rather than blanking it.
                self.results.failed = self.results.tracks.len() == 0;
                Landing::Shown
            },
        }
    }

    /// The chosen result, if it is still there.
    fn chosen(&self, index: usize) -> (track: Option<Track>)
        ensures
            (match track {
                Some(track) => Some(track@),
                None => None,
            }) == (if index < self@.results.tracks.len() {
                Some(self@.results.tracks[index as int])
            } else {
                None
            }),
    {
        if index < self.results.tracks.len() {
            Some(self.results.tracks[index].clone())
        } else {
            None
        }
    }

    /// Take an event.
    pub fn on_event(
        &mut self,
        event: Input,
        library: &Vec<Track>,
        cache: &mut SearchCache,
        now: u128,
    ) -> (outcome: Outcome)
        requires
            old(self).generation < u64::MAX,
            old(cache).wf(),
            old(cache).clock() < u64::MAX - 1,
        ensures
            ({
                let shelf = Shelf {
                    library: model::track_models(library@),
                    cache: old(cache)@,
                    now,
                };
                &&& final(self)@ == after_event(old(self)@, event, shelf)
                &&& outcome@ == outcome_of(old(self)@, event, shelf)
                &&& final(cache)@ == (match keystroke(old(self)@, event) {
                    Keystroke::Retype(query) => cache_after(query, shelf, old(cache).clock()),
                    _ => old(cache)@,
                })
                &&& final(cache).clock() == (match keystroke(old(self)@, event) {
                    Keystroke::Retype(query) => clock_after(query, shelf, old(cache).clock()),
                    _ => old(cache).clock(),
                })
            }),
            final(cache).wf(),
    {
        match self.stage {
            Stage::Typing => match event {
                Input::Esc => Outcome::Close,
                Input::Backspace => {
                    let _ = self.query.pop();
                    Outcome::Searched(self.schedule_search(library, cache, now))
                },
                Input::Enter => {
                    if self.results.tracks.len() > 0 {
                        self.stage = Stage::Acting(0);
                    }
                    Outcome::Consumed
                },
                // The way to put a digit in the query once results are up.
                Input::AltChar(c) => {
                    self.query.push(c);
                    Outcome::Searched(self.schedule_search(library, cache, now))
                },
                Input::Char(c) => {
                    // A digit picks the result it numbers. With nothing to pick yet it is
                    // just a character, so a query that starts with a number still types.
                    let index: usize = match c {
                        '1' => 0,
                        '2' => 1,
                        '3' => 2,
                        '4' => 3,
                        _ => usize::MAX,
                    };
                    if index < self.results.tracks.len() && index < RESULTS {
                        self.stage = Stage::Acting(index);
                        return Outcome::Consumed;
                    }
                    self.query.push(c);
                    Outcome::Searched(self.schedule_search(library, cache, now))
                },
                _ => Outcome::Ignored,
            },
            Stage::Acting(index) => match event {
                Input::Esc => {
                    self.stage = Stage::Typing;
                    Outcome::Consumed
                },
                Input::Char(c) => match c {
                    '1' => Outcome::Act(Action::PlayNext, self.chosen(index)),
                    '2' => Outcome::Act(Action::PlayNow, self.chosen(index)),
                    '3' => Outcome::Act(Action::Radio, self.chosen(index)),
                    // Anything else typed goes back to editing, so a mistyped key does not
                    // strand you on a result.
                    _ => {
                        self.query.push(c);
                        self.stage = Stage::Typing;
                        Outcome::Searched(self.schedule_search(library, cache, now))
                    },
                },
                _ => Outcome::Ignored,
            },
        }
    }
}

// ---------------------------------------------------------------------------
// What the overlay looks like.
// ---------------------------------------------------------------------------

/// `line` cut to `max_width` columns, with an ellipsis where something had to go.
pub open spec fn clipped(line: Seq<char>, max_width: nat) -> Seq<char> {
    if text::text_width(line) <= max_width {
        line
    } else {
        text::longest_prefix(
            line,
            if max_width == 0 {
                0
            } else {
                (max_width - 1) as nat
            },
        ).push('\u{2026}')
    }
}

/// Cut `line` to `max_width` columns.
fn clip(line: &str, max_width: usize) -> (cut: String)
    ensures
        cut@ == clipped(line@, max_width as nat),
{
    if text::width(line) <= max_width {
        return line.to_owned();
    }
    let mut cut = text::fitting_prefix(line, max_width.saturating_sub(1));
    cut.push('\u{2026}');
    cut
}

/// The sides of the frame, row by row from the second on.
pub open spec fn wall_marks(right: int, rows: nat) -> Seq<Mark>
    decreases rows,
{
    if rows == 0 {
        Seq::empty()
    } else {
        wall_marks(right, (rows - 1) as nat) + seq![
            canvas::mark(0, rows as int, "\u{2502}"@, Ink::Secondary),
            canvas::mark(right, rows as int, "\u{2502}"@, Ink::Secondary),
        ]
    }
}

/// The top or the bottom of the frame.
pub open spec fn beam_marks(
    columns: int,
    row: int,
    first: Seq<char>,
    last: Seq<char>,
) -> Seq<Mark> {
    seq![
        canvas::mark(0, row, first, Ink::Secondary),
        canvas::mark(1, row, text::repeated('\u{2500}', (columns - 2) as nat), Ink::Secondary),
        canvas::mark(columns - 1, row, last, Ink::Secondary),
    ]
}

/// The frame of the overlay, where there is room for one.
pub open spec fn frame_marks(size: Vec2) -> Seq<Mark> {
    if size.x < 4 || size.y < 3 {
        Seq::empty()
    } else {
        canvas::blank_marks(size) + beam_marks(size.x as int, 0, "\u{256d}"@, "\u{256e}"@)
            + wall_marks(size.x - 1, (size.y - 2) as nat) + beam_marks(
            size.x as int,
            size.y - 1,
            "\u{2570}"@,
            "\u{256f}"@,
        ) + seq![canvas::mark(3, 0, " quick search "@, Ink::Title)]
    }
}

/// The line that is typed on.
pub open spec fn query_marks(overlay: OverlayModel, width: nat) -> Seq<Mark> {
    seq![
        canvas::mark(2, 2, "\u{276f}"@, Ink::Secondary),
        canvas::mark(
            4,
            2,
            clipped(
                overlay.query + (if overlay.stage == Stage::Typing {
                    "\u{258f}"@
                } else {
                    ""@
                }),
                width,
            ),
            Ink::Primary,
        ),
    ]
}

/// What is said where there is nothing to list.
pub open spec fn message(overlay: OverlayModel) -> Seq<char> {
    if overlay.results.failed {
        "search failed"@
    } else if overlay.results.searching {
        "searching\u{2026}"@
    } else if text::trimmed(overlay.query).len() == 0 {
        "type to search Spotify"@
    } else {
        "no results"@
    }
}

/// Whether the track at `index` is in the library already.
pub open spec fn is_saved(saved: Seq<bool>, index: int) -> bool {
    index < saved.len() && saved[index]
}

/// The title of a result, marked where the track is in the library already.
pub open spec fn result_title(
    track: TrackModel,
    saved: bool,
    nerdfont: bool,
    width: nat,
) -> Seq<char> {
    clipped(
        (if !saved {
            ""@
        } else if nerdfont {
            "\u{f012c} "@
        } else {
            "\u{2665} "@
        }) + track.title,
        width / 2,
    )
}

/// One result, on row `row`.
pub open spec fn result_marks(
    track: TrackModel,
    index: int,
    chosen: bool,
    saved: bool,
    nerdfont: bool,
    width: nat,
) -> Seq<Mark> {
    let row = 4 + index;
    let title = result_title(track, saved, nerdfont, width);
    let used = 6 + text::text_width(title) + 2;
    let artists = text::joined(track.artists, ", "@);
    seq![
        canvas::mark(
            2,
            row,
            " "@ + text::digits((index + 1) as nat) + " "@,
            if chosen {
                Ink::Highlight
            } else {
                Ink::Secondary
            },
        ),
        canvas::styled_mark(
            6,
            row,
            title,
            Ink::Primary,
            if chosen {
                Effect::Bold
            } else {
                Effect::Simple
            },
        ),
    ] + (if used < width {
        seq![canvas::mark(used, row, clipped(artists, (width - used) as nat), Ink::Secondary)]
    } else {
        Seq::empty()
    })
}

/// The first `count` results.
pub open spec fn list_marks(
    overlay: OverlayModel,
    saved: Seq<bool>,
    nerdfont: bool,
    width: nat,
    count: nat,
) -> Seq<Mark>
    decreases count,
{
    if count == 0 {
        Seq::empty()
    } else {
        let index = count - 1;
        list_marks(overlay, saved, nerdfont, width, index as nat) + result_marks(
            overlay.results.tracks[index],
            index,
            overlay.stage == Stage::Acting(index as usize),
            is_saved(saved, index),
            nerdfont,
            width,
        )
    }
}

/// The results, or why there are none.
pub open spec fn results_marks(
    overlay: OverlayModel,
    saved: Seq<bool>,
    nerdfont: bool,
    width: nat,
) -> Seq<Mark> {
    let count = overlay.results.tracks.len();
    if count == 0 {
        seq![canvas::mark(4, 4, message(overlay), Ink::Secondary)]
    } else {
        list_marks(
            overlay,
            saved,
            nerdfont,
            width,
            if count < RESULTS {
                count
            } else {
                RESULTS as nat
            },
        )
    }
}

/// The keys that mean something.
pub open spec fn hint(overlay: OverlayModel) -> Seq<char> {
    match overlay.stage {
        Stage::Typing if overlay.results.tracks.len() == 0 => "Esc  close"@,
        Stage::Typing => "1-4  pick     Alt+digit  type it     Esc  close"@,
        Stage::Acting(_) => "1  play next     2  play now     3  radio     Esc  back"@,
    }
}

/// What the overlay puts on the screen.
pub open spec fn overlay_marks(
    overlay: OverlayModel,
    size: Vec2,
    saved: Seq<bool>,
    nerdfont: bool,
) -> Seq<Mark> {
    let width = (size.x - 6) as nat;
    if size.x < 12 || size.y < 8 {
        frame_marks(size)
    } else {
        frame_marks(size) + query_marks(overlay, width) + results_marks(
            overlay,
            saved,
            nerdfont,
            width,
        ) + seq![canvas::mark(2, size.y - 2, hint(overlay), Ink::Secondary)]
    }
}

/// Draw the top or the bottom of the frame.
fn draw_beam(sheet: &mut Sheet, columns: usize, row: usize, first: &str, last: &str)
    requires
        columns >= 4,
    ensures
        final(sheet)@ == old(sheet)@ + beam_marks(columns as int, row as int, first@, last@),
{
    sheet.print(0, row, first, Ink::Secondary);
    sheet.print(1, row, &text::repeat('\u{2500}', columns - 2), Ink::Secondary);
    sheet.print(columns - 1, row, last, Ink::Secondary);
    assert(sheet@ =~= old(sheet)@ + beam_marks(columns as int, row as int, first@, last@));
}

fn draw_frame(sheet: &mut Sheet, size: Vec2)
    ensures
        final(sheet)@ == old(sheet)@ + frame_marks(size),
{
    if size.x < 4 || size.y < 3 {
        assert(sheet@ =~= old(sheet)@ + frame_marks(size));
        return;
    }
    sheet.blank(size);
    draw_beam(sheet, size.x, 0, "\u{256d}", "\u{256e}");
    let ghost before = sheet@;
    assert(before =~= before + wall_marks(size.x - 1, 0));
    for row in 1..size.y - 1
        invariant
            size.x >= 4,
            size.y >= 3,
            sheet@ == before + wall_marks(size.x - 1, (row - 1) as nat),
    {
        sheet.print(0, row, "\u{2502}", Ink::Secondary);
        sheet.print(size.x - 1, row, "\u{2502}", Ink::Secondary);
        assert(sheet@ =~= before + wall_marks(size.x - 1, row as nat));
    }
    draw_beam(sheet, size.x, size.y - 1, "\u{2570}", "\u{256f}");
    sheet.print(3, 0, " quick search ", Ink::Title);
    assert(sheet@ =~= old(sheet)@ + frame_marks(size));
}

impl QuickSearch {
    fn draw_query(&self, sheet: &mut Sheet, width: usize)
        ensures
            final(sheet)@ == old(sheet)@ + query_marks(self@, width as nat),
    {
        let mut query = self.query.clone();
        query.append(
            match self.stage {
                Stage::Typing => "\u{258f}",
                Stage::Acting(_) => "",
            },
        );
        sheet.print(2, 2, "\u{276f}", Ink::Secondary);
        sheet.print(4, 2, &clip(&query, width), Ink::Primary);
        assert(sheet@ =~= old(sheet)@ + query_marks(self@, width as nat));
    }

    fn draw_result(
        &self,
        sheet: &mut Sheet,
        index: usize,
        saved: bool,
        nerdfont: bool,
        width: usize,
    )
        requires
            index < self.results.tracks@.len(),
            index < RESULTS,
        ensures
            final(sheet)@ == old(sheet)@ + result_marks(
                self@.results.tracks[index as int],
                index as int,
                self.stage == Stage::Acting(index),
                saved,
                nerdfont,
                width as nat,
            ),
    {
        let track = &self.results.tracks[index];
        let chosen = match self.stage {
            Stage::Acting(picked) => picked == index,
            Stage::Typing => false,
        };
        let row: usize = 4 + index;
        let mut key = " ".to_owned();
        key.append(&text::decimal((index + 1) as u128));
        key.append(" ");
        sheet.print(
            2,
            row,
            &key,
            if chosen {
                Ink::Highlight
            } else {
                Ink::Secondary
            },
        );

        // Mark what is already in the library, so a result you own is obvious.
        let mut title = String::new();
        title.append(
            if !saved {
                ""
            } else if nerdfont {
                "\u{f012c} "
            } else {
                "\u{2665} "
            },
        );
        title.append(&track.title);
        let title = clip(&title, width / 2);
        sheet.print_styled(
            6,
            row,
            &title,
            Ink::Primary,
            if chosen {
                Effect::Bold
            } else {
                Effect::Simple
            },
        );
        let columns = text::width(&title);
        if width > 8 && columns < width - 8 {
            let used: usize = 6 + columns + 2;
            let artists = text::join(&track.artists, ", ");
            sheet.print(used, row, &clip(&artists, width - used), Ink::Secondary);
        }
        assert(sheet@ =~= old(sheet)@ + result_marks(
            track@,
            index as int,
            chosen,
            saved,
            nerdfont,
            width as nat,
        ));
    }

    fn draw_results(&self, sheet: &mut Sheet, saved: &Vec<bool>, nerdfont: bool, width: usize)
        ensures
            final(sheet)@ == old(sheet)@ + results_marks(self@, saved@, nerdfont, width as nat),
    {
        let tracks: usize = self.results.tracks.len();
        assert(tracks == self@.results.tracks.len());
        if tracks == 0 {
            let message = if self.results.failed {
                "search failed"
            } else if self.results.searching {
                "searching\u{2026}"
            } else if text::trim(&self.query).as_str().is_empty() {
                "type to search Spotify"
            } else {
                "no results"
            };
            sheet.print(4, 4, message, Ink::Secondary);
            assert(sheet@ =~= old(sheet)@ + results_marks(self@, saved@, nerdfont, width as nat));
            return;
        }
        let count: usize = if tracks < RESULTS {
            tracks
        } else {
            RESULTS
        };
        assert(sheet@ =~= old(sheet)@ + list_marks(self@, saved@, nerdfont, width as nat, 0));
        for index in 0..count
            invariant
                count <= RESULTS,
                count <= self.results.tracks@.len(),
                sheet@ =~= old(sheet)@ + list_marks(
                    self@,
                    saved@,
                    nerdfont,
                    width as nat,
                    index as nat,
                ),
        {
            let owned = index < saved.len() && saved[index];
            self.draw_result(sheet, index, owned, nerdfont, width);
        }
    }

    /// Draw the overlay for a screen of `size`. `saved` says of each result whether it is in
    /// the library already.
    pub fn draw(&self, size: Vec2, saved: &Vec<bool>, nerdfont: bool) -> (sheet: Sheet)
        ensures
            sheet@ == overlay_marks(self@, size, saved@, nerdfont),
    {
        let mut sheet = Sheet::new();
        draw_frame(&mut sheet, size);
        if size.x < 12 || size.y < 8 {
            assert(sheet@ =~= frame_marks(size));
            return sheet;
        }
        let width: usize = size.x - 6;
        self.draw_query(&mut sheet, width);
        self.draw_results(&mut sheet, saved, nerdfont, width);
        let hint = match self.stage {
            Stage::Typing => if self.results.tracks.len() == 0 {
                "Esc  close"
            } else {
                "1-4  pick     Alt+digit  type it     Esc  close"
            },
            Stage::Acting(_) => "1  play next     2  play now     3  radio     Esc  back",
        };
        assert(self@.results.tracks.len() == self.results.tracks@.len());
        sheet.print(2, size.y - 2, hint, Ink::Secondary);
        assert(sheet@ =~= overlay_marks(self@, size, saved@, nerdfont));
        sheet
    }
}

/// The cells that the overlay asks for where so many are to be had.
pub fn required_size(constraint: Vec2) -> (size: Vec2)
    ensures
        size.x == vstd::math::min(WIDTH as int, constraint.x as int),
        size.y == vstd::math::min(4 + RESULTS + 3, constraint.y as int),
        size.x <= constraint.x && size.y <= constraint.y,
        constraint.x >= 62 ==> size.x == 62,
        constraint.x < 62 ==> size.x == constraint.x,
        constraint.y >= 11 ==> size.y == 11,
        constraint.y < 11 ==> size.y == constraint.y,
{
    Vec2::new(
        if constraint.x < WIDTH {
            constraint.x
        } else {
            WIDTH
        },
        if constraint.y < 4 + RESULTS + 3 {
            constraint.y
        } else {
            4 + RESULTS + 3
        },
    )
}

// ---------------------------------------------------------------------------
// What the overlay promises.
// ---------------------------------------------------------------------------

/// Nothing is listed twice, and no more than can be picked with a digit.
pub proof fn law_merging_drops_repeats(local: Seq<TrackModel>, remote: Seq<TrackModel>)
    ensures
        merged(local, remote).len() <= RESULTS,
        forall|i: int, j: int|
            0 <= i < j < merged(local, remote).len() ==> (#[trigger] merged(local, remote)[i]).uri
                != (#[trigger] merged(local, remote)[j]).uri,
{
    lemma_unrepeated(local + remote);
}

proof fn lemma_unrepeated(list: Seq<TrackModel>)
    ensures
        forall|i: int, j: int|
            0 <= i < j < unrepeated(list).len() ==> (#[trigger] unrepeated(list)[i]).uri != (
            #[trigger] unrepeated(list)[j]).uri,
    decreases list.len(),
{
    if list.len() > 0 {
        lemma_unrepeated(list.drop_last());
        let before = unrepeated(list.drop_last());
        if !has_uri(before, list.last().uri) {
            assert forall|i: int, j: int| 0 <= i < j < unrepeated(list).len() implies (
            #[trigger] unrepeated(list)[i]).uri != (#[trigger] unrepeated(list)[j]).uri by {
                assert(unrepeated(list)[i] == before[i]);
                if j < before.len() {
                    assert(unrepeated(list)[j] == before[j]);
                }
            }
        }
    }
}

/// Library hits stay ahead of whatever the catalogue found.
pub proof fn law_library_hits_come_first(local: Seq<TrackModel>, remote: Seq<TrackModel>)
    ensures
        merged(local, Seq::empty()).is_prefix_of(merged(local, remote)),
{
    lemma_unrepeated_prefix(local, remote);
    assert(local + Seq::<TrackModel>::empty() =~= local);
    let ours = unrepeated(local);
    let all = unrepeated(local + remote);
    assert(ours.is_prefix_of(all));
    assert(first_of(ours, RESULTS as nat) =~= first_of(all, RESULTS as nat).subrange(
        0,
        first_of(ours, RESULTS as nat).len() as int,
    ));
}

proof fn lemma_unrepeated_prefix(one: Seq<TrackModel>, more: Seq<TrackModel>)
    ensures
        unrepeated(one).is_prefix_of(unrepeated(one + more)),
    decreases more.len(),
{
    if more.len() == 0 {
        assert(one + more =~= one);
    } else {
        lemma_unrepeated_prefix(one, more.drop_last());
        assert((one + more).drop_last() =~= one + more.drop_last());
        let before = unrepeated(one + more.drop_last());
        let kept = unrepeated(one);
        assert(kept =~= before.subrange(0, kept.len() as int));
        assert(kept =~= unrepeated(one + more).subrange(0, kept.len() as int));
    }
}

/// Only tracks that match are found in the library, and a better match never stands behind
/// a worse one.
pub proof fn law_the_best_match_comes_first(library: Seq<TrackModel>, query: Seq<char>)
    ensures
        ({
            let needle = search_cache::normalized(query);
            let found = local_found(library, query);
            &&& found.len() <= LOCAL_SLOTS
            &&& forall|i: int|
                0 <= i < found.len() ==> library.contains(#[trigger] found[i]) && score(
                    found[i],
                    needle,
                ) is Some
            &&& forall|i: int, j: int|
                0 <= i < j < found.len() ==> score(#[trigger] found[i], needle)->0 <= score(
                    #[trigger] found[j],
                    needle,
                )->0
        }),
{
    lemma_ranked(library, search_cache::normalized(query), 4);
}

proof fn lemma_ranked(library: Seq<TrackModel>, needle: Seq<char>, worst: int)
    requires
        -1 <= worst,
    ensures
        ({
            let found = ranked(library, needle, worst);
            &&& forall|i: int|
                0 <= i < found.len() ==> library.contains(#[trigger] found[i]) && score(
                    found[i],
                    needle,
                ) is Some && score(found[i], needle)->0 <= worst
            &&& forall|i: int, j: int|
                0 <= i < j < found.len() ==> score(#[trigger] found[i], needle)->0 <= score(
                    #[trigger] found[j],
                    needle,
                )->0
        }),
    decreases worst + 1,
{
    if worst >= 0 {
        lemma_ranked(library, needle, worst - 1);
        let better = ranked(library, needle, worst - 1);
        let equal = scoring(library, needle, worst);
        let matching = |track: TrackModel| score(track, needle) matches Some(found) && found
            == worst;
        assert forall|i: int| 0 <= i < equal.len() implies library.contains(#[trigger] equal[i])
            && score(equal[i], needle) is Some && score(equal[i], needle)->0 == worst by {
            library.lemma_filter_contains_rev(matching, equal[i]);
            library.lemma_filter_pred(matching, i);
        }
        let found = ranked(library, needle, worst);
        assert forall|i: int| 0 <= i < found.len() implies library.contains(#[trigger] found[i])
            && score(found[i], needle) is Some && score(found[i], needle)->0 <= worst by {
            if i < better.len() {
                assert(found[i] == better[i]);
            } else {
                assert(found[i] == equal[i - better.len()]);
            }
        }
        assert forall|i: int, j: int| 0 <= i < j < found.len() implies score(
            #[trigger] found[i],
            needle,
        )->0 <= score(#[trigger] found[j], needle)->0 by {
            if j < better.len() {
                assert(found[i] == better[i] && found[j] == better[j]);
            } else {
                assert(found[j] == equal[j - better.len()]);
            }
        }
    }
}

/// Choosing and playing is two keys: a digit picks the result it numbers, and the next one
/// says what becomes of it.
pub proof fn law_two_keys_play_a_result(
    overlay: OverlayModel,
    digit: char,
    key: char,
    shelf: Shelf,
    later: Shelf,
)
    requires
        overlay.stage == Stage::Typing,
        digit_index(digit) matches Some(index) && index < overlay.results.tracks.len(),
        action_of(key) is Some,
    ensures
        ({
            let picked = after_event(overlay, Input::Char(digit), shelf);
            &&& picked.query == overlay.query
            &&& outcome_of(picked, Input::Char(key), later) == OutcomeModel::Act(
                action_of(key)->0,
                Some(overlay.results.tracks[digit_index(digit)->0]),
            )
        }),
{
}

/// Alt puts any character into the query, also a digit that would otherwise pick a result.
pub proof fn law_alt_always_types(overlay: OverlayModel, c: char, shelf: Shelf)
    requires
        overlay.stage == Stage::Typing,
    ensures
        after_event(overlay, Input::AltChar(c), shelf).query == overlay.query.push(c),
        after_event(overlay, Input::AltChar(c), shelf).stage == Stage::Typing,
{
}

/// Escape walks back to the query before it closes the overlay, so twice is always enough.
pub proof fn law_escape_leads_out(overlay: OverlayModel, shelf: Shelf, later: Shelf)
    ensures
        overlay.stage == Stage::Typing ==> outcome_of(overlay, Input::Esc, shelf)
            == OutcomeModel::Close,
        overlay.stage is Acting ==> ({
            let back = after_event(overlay, Input::Esc, shelf);
            &&& back == (OverlayModel { stage: Stage::Typing, ..overlay })
            &&& outcome_of(back, Input::Esc, later) == OutcomeModel::Close
        }),
{
}

/// Backspace undoes a typed character.
pub proof fn law_backspace_undoes_typing(
    overlay: OverlayModel,
    c: char,
    shelf: Shelf,
    later: Shelf,
)
    requires
        keystroke(overlay, Input::Char(c)) == Keystroke::Retype(overlay.query.push(c)),
    ensures
        after_event(after_event(overlay, Input::Char(c), shelf), Input::Backspace, later).query
            == overlay.query,
{
    assert(overlay.query.push(c).drop_last() =~= overlay.query);
}

/// A keystroke that changes the query supersedes the search that is out: its answer is
/// dropped.
pub proof fn law_a_keystroke_supersedes_a_search(
    overlay: OverlayModel,
    shelf: Shelf,
    event: Input,
    later: Shelf,
)
    requires
        overlay.generation < u64::MAX - 1,
        search_of(overlay, shelf) is Ask,
        keystroke(searched(overlay, shelf), event) is Retype,
    ensures
        searched(overlay, shelf).generation == search_of(overlay, shelf)->Ask_0.generation,
        after_event(searched(overlay, shelf), event, later).generation != search_of(
            overlay,
            shelf,
        )->Ask_0.generation,
{
}

/// The list is never blanked by an answer that brings nothing.
pub proof fn law_a_failure_keeps_what_is_shown(overlay: OverlayModel, request: RequestModel)
    ensures
        answered(overlay, request, Reply::Failed).results.tracks == overlay.results.tracks,
        answered(overlay, request, Reply::Failed).results.failed ==> overlay.results.tracks.len()
            == 0,
        answered(overlay, request, Reply::Unexpected).results.tracks == overlay.results.tracks,
{
}

/// The track that a station was made from is not queued behind itself, and every other one
/// that was found is.
pub proof fn law_a_station_leaves_out_its_seed(found: Seq<TrackModel>, seed: Seq<char>)
    ensures
        !has_uri(station_of(found, seed), seed),
        forall|i: int|
            0 <= i < found.len() && (#[trigger] found[i]).uri != seed ==> station_of(
                found,
                seed,
            ).contains(found[i]),
{
    let wanted = |track: TrackModel| track.uri != seed;
    let rest = station_of(found, seed);
    assert forall|i: int| 0 <= i < rest.len() implies (#[trigger] rest[i]).uri != seed by {
        found.lemma_filter_pred(wanted, i);
    }
    assert forall|i: int| 0 <= i < found.len() && (#[trigger] found[i]).uri != seed implies rest.contains(
        found[i],
    ) by {
        found.lemma_filter_contains(wanted, i);
    }
}

/// A query that was answered recently is served without asking, and what its longest known
/// prefix found is shown while a new one is out.
pub proof fn law_the_list_is_filled_at_once(overlay: OverlayModel, shelf: Shelf)
    requires
        text::trimmed(overlay.query).len() > 0,
    ensures
        ({
            let query = text::trimmed(overlay.query);
            let key = search_cache::normalized(query);
            let shown = searched(overlay, shelf).results;
            &&& shown.searching <==> search_of(overlay, shelf) is Ask
            &&& search_cache::served(shelf.cache, key, shelf.now) matches Some(tracks)
                ==> !shown.searching && shown.tracks == merged(
                local_found(shelf.library, query),
                tracks,
            )
            &&& search_cache::served(shelf.cache, key, shelf.now) is None ==> shown.tracks
                == merged(
                local_found(shelf.library, query),
                search_cache::known(shelf.cache, key),
            )
        }),
{
}

/// Typing the digit whose value is `k` chooses the `k`th result, where there is one, and
/// changes nothing else: `0` and the digits follow one another.
pub proof fn law_a_digit_chooses_the_result_it_counts(
    overlay: OverlayModel,
    digit: char,
    k: int,
    shelf: Shelf,
)
    requires
        overlay.stage == Stage::Typing,
        1 <= k <= 4,
        k <= overlay.results.tracks.len(),
        digit as int == '0' as int + k,
    ensures
        after_event(overlay, Input::Char(digit), shelf) == (OverlayModel {
            stage: Stage::Acting((k - 1) as usize),
            ..overlay
        }),
        outcome_of(overlay, Input::Char(digit), shelf) == OutcomeModel::Consumed,
{
}

/// A digit only chooses where there is a result for it: one that counts past the list, and
/// any other character, becomes part of the query.
pub proof fn law_what_chooses_nothing_is_typed(
    overlay: OverlayModel,
    c: char,
    shelf: Shelf,
)
    requires
        overlay.stage == Stage::Typing,
        ({
            let k = c as int - '0' as int;
            k < 1 || k > 4 || k > overlay.results.tracks.len()
        }),
    ensures
        after_event(overlay, Input::Char(c), shelf).query == overlay.query.push(c),
        after_event(overlay, Input::Char(c), shelf).stage == Stage::Typing,
        outcome_of(overlay, Input::Char(c), shelf) is Searched,
{
}

/// Once a result is chosen, the first digit queues it, the second plays it and the third
/// makes a station of it: each acts on that result and on no other. Any other character is
/// typed, and leads back to the query.
pub proof fn law_a_chosen_result_is_what_is_acted_on(
    overlay: OverlayModel,
    index: usize,
    key: char,
    shelf: Shelf,
)
    requires
        overlay.stage == Stage::Acting(index),
        index < overlay.results.tracks.len(),
    ensures
        ({
            let chosen = Some(overlay.results.tracks[index as int]);
            let outcome = outcome_of(overlay, Input::Char(key), shelf);
            let nth = key as int - '0' as int;
            &&& nth == 1 <==> outcome == OutcomeModel::Act(Action::PlayNext, chosen)
            &&& nth == 2 <==> outcome == OutcomeModel::Act(Action::PlayNow, chosen)
            &&& nth == 3 <==> outcome == OutcomeModel::Act(Action::Radio, chosen)
            &&& outcome is Act ==> after_event(overlay, Input::Char(key), shelf) == overlay
            &&& !(1 <= nth <= 3) ==> outcome is Searched && after_event(
                overlay,
                Input::Char(key),
                shelf,
            ).query == overlay.query.push(key) && after_event(
                overlay,
                Input::Char(key),
                shelf,
            ).stage == Stage::Typing
        }),
{
}

/// Enter chooses the first result, where there is any, and otherwise does nothing.
pub proof fn law_enter_chooses_the_first_result(overlay: OverlayModel, shelf: Shelf)
    requires
        overlay.stage == Stage::Typing,
    ensures
        outcome_of(overlay, Input::Enter, shelf) == OutcomeModel::Consumed,
        overlay.results.tracks.len() == 0 ==> after_event(overlay, Input::Enter, shelf) == overlay,
        overlay.results.tracks.len() > 0 ==> after_event(overlay, Input::Enter, shelf) == (
        OverlayModel { stage: Stage::Acting(0), ..overlay }),
{
}

/// Once a result is chosen, Enter, Backspace and Alt are left to others, and so is the mouse
/// at any time.
pub proof fn law_the_rest_is_left_to_others(overlay: OverlayModel, event: Input, shelf: Shelf)
    ensures
        outcome_of(overlay, event, shelf) == OutcomeModel::Ignored <==> event is Mouse
            || event is Other || overlay.stage is Acting && (event is Enter || event is Backspace
            || event is AltChar),
        outcome_of(overlay, event, shelf) == OutcomeModel::Ignored ==> after_event(
            overlay,
            event,
            shelf,
        ) == overlay,
{
}

/// Whether a result with this number and this title is among some marks: in its row the
/// number stands in front of the title, in this colour.
#[verifier::opaque]
pub open spec fn labelled(
    marks: Seq<Mark>,
    index: int,
    title: Seq<char>,
    ink: Ink,
) -> bool {
    exists|at: int|
        0 <= at && at + 1 < marks.len() && (#[trigger] marks[at]).text == " "@ + text::digits(
            (index + 1) as nat,
        ) + " "@ && marks[at].y == 4 + index && marks[at].x == 2 && marks[at].ink == ink
            && marks[at + 1].y == 4 + index && marks[at + 1].x == 6 && marks[at + 1].text == title
}

proof fn lemma_labelled_within(
    above: Seq<Mark>,
    listed: Seq<Mark>,
    below: Seq<Mark>,
    index: int,
    title: Seq<char>,
    ink: Ink,
)
    requires
        labelled(listed, index, title, ink),
    ensures
        labelled(above + listed + below, index, title, ink),
{
    reveal(labelled);
    let at = choose|at: int|
        0 <= at && at + 1 < listed.len() && (#[trigger] listed[at]).text == " "@ + text::digits(
            (index + 1) as nat,
        ) + " "@ && listed[at].y == 4 + index && listed[at].x == 2 && listed[at].ink == ink
            && listed[at + 1].y == 4 + index && listed[at + 1].x == 6 && listed[at + 1].text
            == title;
    let all = above + listed + below;
    assert(all[above.len() + at] == listed[at]);
    assert(all[above.len() + at + 1] == listed[at + 1]);
}

proof fn lemma_result_labelled(
    track: TrackModel,
    index: int,
    chosen: bool,
    saved: bool,
    nerdfont: bool,
    width: nat,
)
    ensures
        labelled(
            result_marks(track, index, chosen, saved, nerdfont, width),
            index,
            result_title(track, saved, nerdfont, width),
            if chosen {
                Ink::Highlight
            } else {
                Ink::Secondary
            },
        ),
{
    reveal(labelled);
    let marks = result_marks(track, index, chosen, saved, nerdfont, width);
    assert(marks[0].x == 2);
    assert(marks[1].x == 6);
}

proof fn lemma_list_labelled(
    overlay: OverlayModel,
    saved: Seq<bool>,
    nerdfont: bool,
    width: nat,
    count: nat,
    index: int,
)
    requires
        0 <= index < count,
    ensures
        labelled(
            list_marks(overlay, saved, nerdfont, width, count),
            index,
            result_title(
                overlay.results.tracks[index],
                is_saved(saved, index),
                nerdfont,
                width,
            ),
            if overlay.stage == Stage::Acting(index as usize) {
                Ink::Highlight
            } else {
                Ink::Secondary
            },
        ),
    decreases count,
{
    let last = count - 1;
    let none = Seq::<Mark>::empty();
    let before = list_marks(overlay, saved, nerdfont, width, last as nat);
    let here = result_marks(
        overlay.results.tracks[last],
        last,
        overlay.stage == Stage::Acting(last as usize),
        is_saved(saved, last),
        nerdfont,
        width,
    );
    let title = result_title(
        overlay.results.tracks[index],
        is_saved(saved, index),
        nerdfont,
        width,
    );
    let ink = if overlay.stage == Stage::Acting(index as usize) {
        Ink::Highlight
    } else {
        Ink::Secondary
    };
    if index == last {
        lemma_result_labelled(
            overlay.results.tracks[last],
            last,
            overlay.stage == Stage::Acting(last as usize),
            is_saved(saved, last),
            nerdfont,
            width,
        );
        lemma_labelled_within(before, here, none, index, title, ink);
        assert(before + here + none =~= before + here);
    } else {
        lemma_list_labelled(overlay, saved, nerdfont, width, last as nat, index);
        lemma_labelled_within(none, before, here, index, title, ink);
        assert(none + before + here =~= before + here);
    }
}

/// An overlay with results is its frame, its query, its results and its hint.
proof fn lemma_overlay_parts(
    overlay: OverlayModel,
    size: Vec2,
    saved: Seq<bool>,
    nerdfont: bool,
    count: nat,
)
    requires
        size.x >= 12,
        size.y >= 8,
        overlay.results.tracks.len() > 0,
        count == vstd::math::min(overlay.results.tracks.len() as int, RESULTS as int),
    ensures
        overlay_marks(overlay, size, saved, nerdfont) == frame_marks(size) + query_marks(
            overlay,
            (size.x - 6) as nat,
        ) + list_marks(overlay, saved, nerdfont, (size.x - 6) as nat, count) + seq![
            canvas::mark(2, size.y - 2, hint(overlay), Ink::Secondary),
        ],
{
}

#[verifier::rlimit(40)]
proof fn lemma_overlay_labelled(
    overlay: OverlayModel,
    index: int,
    size: Vec2,
    saved: Seq<bool>,
    nerdfont: bool,
)
    requires
        size.x >= 12,
        size.y >= 8,
        0 <= index < overlay.results.tracks.len(),
        index < 4,
    ensures
        labelled(
            overlay_marks(overlay, size, saved, nerdfont),
            index,
            result_title(
                overlay.results.tracks[index],
                is_saved(saved, index),
                nerdfont,
                (size.x - 6) as nat,
            ),
            if overlay.stage == Stage::Acting(index as usize) {
                Ink::Highlight
            } else {
                Ink::Secondary
            },
        ),
{
    let width = (size.x - 6) as nat;
    let held = overlay.results.tracks.len();
    let count: nat = if held < RESULTS {
        held
    } else {
        RESULTS as nat
    };
    lemma_overlay_parts(overlay, size, saved, nerdfont, count);
    lemma_list_labelled(overlay, saved, nerdfont, width, count, index);
    lemma_labelled_within(
        frame_marks(size) + query_marks(overlay, width),
        list_marks(overlay, saved, nerdfont, width, count),
        seq![canvas::mark(2, size.y - 2, hint(overlay), Ink::Secondary)],
        index,
        result_title(
            overlay.results.tracks[index],
            is_saved(saved, index),
            nerdfont,
            width,
        ),
        if overlay.stage == Stage::Acting(index as usize) {
            Ink::Highlight
        } else {
            Ink::Secondary
        },
    );
}

/// The digit that is drawn in front of a result is the one that chooses it, and the title
/// next to it is the title of that result; once it is chosen, its digit is highlighted.
pub proof fn law_a_result_is_labelled_with_its_digit(
    overlay: OverlayModel,
    index: int,
    digit: char,
    size: Vec2,
    saved: Seq<bool>,
    nerdfont: bool,
    shelf: Shelf,
)
    requires
        size.x >= 12,
        size.y >= 8,
        overlay.stage == Stage::Typing,
        0 <= index < overlay.results.tracks.len(),
        index < 4,
        digit as int == '0' as int + index + 1,
    ensures
        ({
            let marks = overlay_marks(overlay, size, saved, nerdfont);
            exists|at: int|
                0 <= at && at + 1 < marks.len() && (#[trigger] marks[at]).text == seq![
                    ' ',
                    digit,
                    ' ',
                ] && marks[at].ink == Ink::Secondary && marks[at + 1].y == marks[at].y
                    && marks[at].x < marks[at + 1].x && marks[at + 1].text == result_title(
                    overlay.results.tracks[index],
                    is_saved(saved, index),
                    nerdfont,
                    (size.x - 6) as nat,
                )
        }),
        ({
            let picked = after_event(overlay, Input::Char(digit), shelf);
            let marks = overlay_marks(picked, size, saved, nerdfont);
            exists|at: int|
                0 <= at < marks.len() && (#[trigger] marks[at]).text == seq![' ', digit, ' ']
                    && marks[at].ink == Ink::Highlight && marks[at].y == 4 + index
        }),
{
    let k = (index + 1) as nat;
    reveal_strlit(" ");
    assert(text::digits(k) =~= seq![digit]);
    assert(" "@ + text::digits(k) + " "@ =~= seq![' ', digit, ' ']);
    lemma_overlay_labelled(overlay, index, size, saved, nerdfont);
    let picked = after_event(overlay, Input::Char(digit), shelf);
    law_a_digit_chooses_the_result_it_counts(overlay, digit, index + 1, shelf);
    lemma_overlay_labelled(picked, index, size, saved, nerdfont);
    reveal(labelled);
}

/// Whether a score is better than another: it is lower, or the other is no match at all.
pub open spec fn better(one: Option<u8>, other: Option<u8>) -> bool {
    match (one, other) {
        (Some(one), Some(other)) => one < other,
        (Some(_), None) => true,
        (None, _) => false,
    }
}

/// What a match is worth goes by where it stands: at the beginning of the title before the
/// beginning of the artists, that before anywhere in the title, that before anywhere among
/// the artists, and that before the album. A track that matches nowhere is no match, and two
/// that match in the same place are worth the same.
pub proof fn law_where_a_match_stands_decides(
    one: TrackModel,
    other: TrackModel,
    needle: Seq<char>,
)
    ensures
        ({
            let title = text::lowercase(one.title);
            let artists = text::lowercase(text::joined(one.artists, ", "@));
            let album = text::lowercase(one.album.unwrap_or(Seq::empty()));
            let title_of_other = text::lowercase(other.title);
            let artists_of_other = text::lowercase(text::joined(other.artists, ", "@));
            let album_of_other = text::lowercase(other.album.unwrap_or(Seq::empty()));
            let leads = needle.is_prefix_of(title);
            let leads_other = needle.is_prefix_of(title_of_other);
            let by = needle.is_prefix_of(artists);
            let by_other = needle.is_prefix_of(artists_of_other);
            let within = text::occurs(title, needle);
            let within_other = text::occurs(title_of_other, needle);
            let among = text::occurs(artists, needle);
            let among_other = text::occurs(artists_of_other, needle);
            &&& score(one, needle) is None <==> !within && !among && !text::occurs(album, needle)
            &&& leads && !leads_other ==> better(score(one, needle), score(other, needle))
            &&& leads && leads_other ==> score(one, needle) == score(other, needle)
            &&& !leads_other && by && !by_other ==> better(
                score(one, needle),
                score(other, needle),
            )
            &&& !leads_other && !by_other && within && !within_other ==> better(
                score(one, needle),
                score(other, needle),
            )
            &&& !leads_other && !by_other && !within_other && among && !among_other ==> better(
                score(one, needle),
                score(other, needle),
            )
            &&& leads == leads_other && by == by_other && within == within_other && among
                == among_other && (text::occurs(album, needle) == text::occurs(
                album_of_other,
                needle,
            )) ==> score(one, needle) == score(other, needle)
        }),
{
    reveal_strlit("");
    assert(""@ =~= Seq::<char>::empty());
    lemma_a_beginning_occurs(text::lowercase(one.title), needle);
    lemma_a_beginning_occurs(text::lowercase(other.title), needle);
    lemma_a_beginning_occurs(text::lowercase(text::joined(one.artists, ", "@)), needle);
    lemma_a_beginning_occurs(text::lowercase(text::joined(other.artists, ", "@)), needle);
}

proof fn lemma_a_beginning_occurs(line: Seq<char>, needle: Seq<char>)
    ensures
        needle.is_prefix_of(line) ==> text::occurs(line, needle),
{
    if needle.is_prefix_of(line) {
        assert(line.subrange(0, 0int + needle.len()) == needle);
    }
}

proof fn lemma_ranked_holds(
    library: Seq<TrackModel>,
    needle: Seq<char>,
    worst: int,
    i: int,
)
    requires
        0 <= i < library.len(),
        score(library[i], needle) matches Some(found) && found <= worst,
    ensures
        ranked(library, needle, worst).contains(library[i]),
    decreases worst + 1,
{
    let found = score(library[i], needle)->0;
    let equal = scoring(library, needle, worst);
    let matching = |track: TrackModel| score(track, needle) matches Some(found) && found == worst;
    let before = ranked(library, needle, worst - 1);
    let all = ranked(library, needle, worst);
    if found == worst {
        library.lemma_filter_contains(matching, i);
        let at = choose|at: int| 0 <= at < equal.len() && equal[at] == library[i];
        assert(all[before.len() + at] == library[i]);
    } else {
        lemma_ranked_holds(library, needle, worst - 1, i);
        let at = choose|at: int| 0 <= at < before.len() && before[at] == library[i];
        assert(all[at] == library[i]);
    }
}

/// No match is passed over for a worse one: a saved track that matches is shown, unless two
/// others are that match at least as well.
pub proof fn law_no_match_is_passed_over(library: Seq<TrackModel>, query: Seq<char>, i: int)
    requires
        0 <= i < library.len(),
        search_cache::normalized(query).len() > 0,
        score(library[i], search_cache::normalized(query)) is Some,
    ensures
        ({
            let needle = search_cache::normalized(query);
            let found = local_found(library, query);
            found.contains(library[i]) || found.len() == 2 && forall|j: int|
                0 <= j < found.len() ==> score(#[trigger] found[j], needle)->0 <= score(
                    library[i],
                    needle,
                )->0
        }),
{
    let needle = search_cache::normalized(query);
    let all = ranked(library, needle, 4);
    let found = local_found(library, query);
    lemma_ranked_holds(library, needle, 4, i);
    lemma_ranked(library, needle, 4);
    let at = choose|at: int| 0 <= at < all.len() && all[at] == library[i];
    if at < found.len() {
        assert(found[at] == library[i]);
    } else {
        assert forall|j: int| 0 <= j < found.len() implies score(#[trigger] found[j], needle)->0
            <= score(library[i], needle)->0 by {
            assert(found[j] == all[j]);
            assert(score(all[j], needle)->0 <= score(all[at], needle)->0);
        }
    }
}

/// Without anything to look for, nothing in the library is a match.
pub proof fn law_an_empty_query_finds_nothing(library: Seq<TrackModel>, query: Seq<char>)
    requires
        search_cache::normalized(query).len() == 0,
    ensures
        local_found(library, query).len() == 0,
{
}

/// Among tracks that match equally well the library decides: one that is added to its end
/// stands behind all that match as well as it does, and before all that match less well.
pub proof fn law_equal_matches_keep_the_order_of_the_library(
    library: Seq<TrackModel>,
    track: TrackModel,
    needle: Seq<char>,
    worst: int,
)
    requires
        score(track, needle) matches Some(found) && found <= worst,
    ensures
        ({
            let equals = ranked(library, needle, score(track, needle)->0 as int);
            let all = ranked(library, needle, worst);
            &&& equals.is_prefix_of(all)
            &&& ranked(library.push(track), needle, worst) == equals.push(track) + all.skip(
                equals.len() as int,
            )
        }),
    decreases worst + 1,
{
    let own = score(track, needle)->0 as int;
    let longer = library.push(track);
    let matching = |track: TrackModel| score(track, needle) matches Some(found) && found == worst;
    let equals = ranked(library, needle, own);
    let all = ranked(library, needle, worst);
    assert(longer.drop_last() =~= library);
    assert(longer.last() == track);
    reveal(Seq::filter);
    if own == worst {
        lemma_ranked_without(library, track, needle, worst - 1);
        assert(scoring(longer, needle, worst) == scoring(library, needle, worst).push(track));
        assert(all.skip(all.len() as int) =~= Seq::<TrackModel>::empty());
        assert(ranked(longer, needle, worst) =~= equals.push(track) + all.skip(
            equals.len() as int,
        ));
    } else {
        law_equal_matches_keep_the_order_of_the_library(library, track, needle, worst - 1);
        let fewer = ranked(library, needle, worst - 1);
        assert(scoring(longer, needle, worst) == scoring(library, needle, worst));
        assert(all.skip(equals.len() as int) =~= fewer.skip(equals.len() as int) + scoring(
            library,
            needle,
            worst,
        ));
        assert(equals =~= all.subrange(0, equals.len() as int)) by {
            assert(equals =~= fewer.subrange(0, equals.len() as int));
        }
        assert(ranked(longer, needle, worst) =~= equals.push(track) + all.skip(
            equals.len() as int,
        ));
    }
}

proof fn lemma_ranked_without(
    library: Seq<TrackModel>,
    track: TrackModel,
    needle: Seq<char>,
    worst: int,
)
    requires
        score(track, needle) matches Some(found) && found > worst,
    ensures
        ranked(library.push(track), needle, worst) == ranked(library, needle, worst),
    decreases worst + 1,
{
    if worst >= 0 {
        lemma_ranked_without(library, track, needle, worst - 1);
        assert(library.push(track).drop_last() =~= library);
        reveal(Seq::filter);
    }
}

proof fn lemma_unrepeated_source(list: Seq<TrackModel>, k: int)
    requires
        0 <= k < unrepeated(list).len(),
    ensures
        exists|i: int|
            0 <= i < list.len() && #[trigger] list[i] == unrepeated(list)[k] && !has_uri(
                list.take(i),
                list[i].uri,
            ),
    decreases list.len(),
{
    let shorter = list.drop_last();
    let before = unrepeated(shorter);
    if k < before.len() {
        lemma_unrepeated_source(shorter, k);
        let i = choose|i: int|
            0 <= i < shorter.len() && #[trigger] shorter[i] == before[k] && !has_uri(
                shorter.take(i),
                shorter[i].uri,
            );
        assert(list[i] == shorter[i]);
        assert(list.take(i) =~= shorter.take(i));
    } else {
        let i = list.len() - 1;
        lemma_unrepeated_has(shorter, list.last().uri);
        assert(list.take(i) =~= shorter);
        assert(list[i] == unrepeated(list)[k]);
    }
}

proof fn lemma_unrepeated_has(list: Seq<TrackModel>, uri: Seq<char>)
    ensures
        has_uri(unrepeated(list), uri) <==> has_uri(list, uri),
    decreases list.len(),
{
    if list.len() > 0 {
        let shorter = list.drop_last();
        let before = unrepeated(shorter);
        lemma_unrepeated_has(shorter, uri);
        lemma_has_uri_push(shorter, list.last(), uri);
        assert(shorter.push(list.last()) =~= list);
        lemma_has_uri_push(before, list.last(), uri);
    }
}

proof fn lemma_has_uri_push(list: Seq<TrackModel>, track: TrackModel, uri: Seq<char>)
    ensures
        has_uri(list.push(track), uri) <==> has_uri(list, uri) || track.uri == uri,
{
    let longer = list.push(track);
    if has_uri(list, uri) {
        let i = choose|i: int| 0 <= i < list.len() && (#[trigger] list[i]).uri == uri;
        assert(longer[i].uri == uri);
    }
    if track.uri == uri {
        assert(longer[list.len() as int].uri == uri);
    }
    if has_uri(longer, uri) {
        let i = choose|i: int| 0 <= i < longer.len() && (#[trigger] longer[i]).uri == uri;
        if i < list.len() {
            assert(list[i].uri == uri);
        }
    }
}

/// Merging makes nothing up and leaves nothing out for no reason: whatever is listed is the
/// first track of its kind among the library hits and then the catalogue results, what comes
/// first of these is listed first, and while fewer than four are listed, all of them are.
pub proof fn law_merging_keeps_what_there_is(
    local: Seq<TrackModel>,
    remote: Seq<TrackModel>,
    k: int,
)
    ensures
        ({
            let list = merged(local, remote);
            let all = local + remote;
            &&& list.len() <= 4
            &&& 0 <= k < list.len() ==> exists|i: int|
                0 <= i < all.len() && #[trigger] all[i] == list[k] && !has_uri(
                    all.take(i),
                    all[i].uri,
                )
            &&& all.len() > 0 ==> list.len() > 0 && list[0] == all[0]
            &&& list.len() < 4 ==> forall|i: int|
                0 <= i < all.len() ==> has_uri(list, (#[trigger] all[i]).uri)
        }),
{
    let list = merged(local, remote);
    let all = local + remote;
    if 0 <= k < list.len() {
        lemma_unrepeated_source(all, k);
        assert(list[k] == unrepeated(all)[k]);
    }
    if all.len() > 0 {
        lemma_unrepeated_first(all);
    }
    if list.len() < 4 {
        assert forall|i: int| 0 <= i < all.len() implies has_uri(
            list,
            (#[trigger] all[i]).uri,
        ) by {
            lemma_unrepeated_has(all, all[i].uri);
        }
    }
}

proof fn lemma_unrepeated_first(list: Seq<TrackModel>)
    requires
        list.len() > 0,
    ensures
        unrepeated(list).len() > 0,
        unrepeated(list)[0] == list[0],
    decreases list.len(),
{
    reveal_with_fuel(unrepeated, 2);
    if list.len() > 1 {
        lemma_unrepeated_first(list.drop_last());
    } else {
        assert(unrepeated(list.drop_last()).len() == 0);
    }
}

/// A track that is found once more changes nothing, and one that is new goes to the end.
pub proof fn law_a_new_result_goes_to_the_end(
    local: Seq<TrackModel>,
    remote: Seq<TrackModel>,
    track: TrackModel,
)
    ensures
        ({
            let before = merged(local, remote);
            let after = merged(local, remote.push(track));
            &&& has_uri(local + remote, track.uri) || before.len() == 4 ==> after == before
            &&& !has_uri(local + remote, track.uri) && before.len() < 4 ==> after == before.push(
                track,
            )
        }),
{
    let all = local + remote;
    assert((local + remote.push(track)).drop_last() =~= all);
    lemma_unrepeated_has(all, track.uri);
    let kept = unrepeated(all);
    if kept.len() >= 4 {
        assert(kept.push(track).take(4) =~= kept.take(4));
        assert(kept.take(kept.len() as int) =~= kept);
    }
}

/// The covers of two lists are those of the one and then those of the other; a track has one
/// cover or none.
pub proof fn law_each_track_brings_its_cover(
    one: Seq<TrackModel>,
    other: Seq<TrackModel>,
    track: TrackModel,
)
    ensures
        cover_urls(one + other) == cover_urls(one) + cover_urls(other),
        track.cover_url matches Some(url) ==> cover_urls(seq![track]) == seq![url],
        track.cover_url is None ==> cover_urls(seq![track]).len() == 0,
    decreases other.len(),
{
    let alone = seq![track];
    assert(alone.drop_last() =~= Seq::<TrackModel>::empty());
    assert(alone.last() == track);
    assert(cover_urls(alone.drop_last()) =~= Seq::<Seq<char>>::empty());
    if let Some(url) = track.cover_url {
        assert(cover_urls(alone) =~= seq![url]);
    }
    if other.len() == 0 {
        assert(one + other =~= one);
        assert(cover_urls(one) + cover_urls(other) =~= cover_urls(one));
    } else {
        law_each_track_brings_its_cover(one, other.drop_last(), track);
        assert((one + other).drop_last() =~= one + other.drop_last());
        assert((one + other).last() == other.last());
        assert(cover_urls(one + other) =~= cover_urls(one) + cover_urls(other));
    }
}

/// A station keeps the order in which its tracks were found.
pub proof fn law_a_station_keeps_its_order(
    one: Seq<TrackModel>,
    other: Seq<TrackModel>,
    seed: Seq<char>,
)
    ensures
        station_of(one + other, seed) == station_of(one, seed) + station_of(other, seed),
{
    let wanted = |track: TrackModel| track.uri != seed;
    Seq::filter_distributes_over_add(one, other, wanted);
}

/// Whatever the answer, the search it belongs to is over and what is typed stays as it is;
/// only an answer with tracks changes the list, and only a failure with an empty list is
/// said.
pub proof fn law_an_answer_ends_the_search(
    overlay: OverlayModel,
    request: RequestModel,
    reply: Reply,
)
    ensures
        ({
            let after = answered(overlay, request, reply);
            &&& !after.results.searching
            &&& after.results.query == request.query
            &&& after.query == overlay.query && after.stage == overlay.stage && after.generation
                == overlay.generation
            &&& !(reply is Tracks) ==> after.results.tracks == overlay.results.tracks
            &&& reply matches Reply::Tracks(found) ==> after.results.tracks == merged(
                request.local,
                model::track_models(found@),
            )
            &&& after.results.failed && !overlay.results.failed ==> reply is Failed
            &&& reply is Failed ==> (after.results.failed <==> overlay.results.tracks.len() == 0)
            &&& reply is Tracks ==> !after.results.failed
        }),
{
}

/// Searching always counts one request on, leaves the query and the stage alone, and clears
/// the list where there is nothing but blanks to search for. A request goes out with the
/// library hits that are on screen already, and is on screen as searching while it is out.
pub proof fn law_a_search_counts_on(overlay: OverlayModel, shelf: Shelf)
    requires
        overlay.generation < u64::MAX,
    ensures
        ({
            let after = searched(overlay, shelf);
            let blank = forall|i: int|
                0 <= i < overlay.query.len() ==> text::white_space(#[trigger] overlay.query[i]);
            &&& after.generation == overlay.generation + 1
            &&& after.query == overlay.query && after.stage == overlay.stage
            &&& !after.results.failed
            &&& search_of(overlay, shelf) is Cleared <==> blank
            &&& blank ==> after.results.tracks.len() == 0 && !after.results.searching
            &&& search_of(overlay, shelf) matches SearchModel::Ask(request) ==> request.generation
                == after.generation && request.query == after.results.query
                && merged(request.local, Seq::empty()).is_prefix_of(after.results.tracks)
            &&& after.results.searching <==> search_of(overlay, shelf) is Ask
        }),
{
    let query = text::trimmed(overlay.query);
    text::law_trimming_takes_off_white_space(overlay.query);
    let (first, end) = choose|first: int, end: int|
        0 <= first <= end <= overlay.query.len() && query == #[trigger] overlay.query.subrange(
            first,
            end,
        ) && (forall|i: int| 0 <= i < first ==> text::white_space(#[trigger] overlay.query[i])) && (
        forall|i: int|
            end <= i < overlay.query.len() ==> text::white_space(#[trigger] overlay.query[i]));
    if query.len() > 0 {
        assert(query[0] == overlay.query[first]);
        assert(!text::white_space(overlay.query[first]));
    } else {
        assert(first == end);
    }
    if query.len() > 0 {
        let key = search_cache::normalized(query);
        law_library_hits_come_first(
            local_found(shelf.library, query),
            match search_cache::served(shelf.cache, key, shelf.now) {
                Some(tracks) => tracks,
                None => search_cache::known(shelf.cache, key),
            },
        );
    }
}

/// A line that fits is shown whole; of any other, a beginning is shown and an ellipsis, and
/// they take no more cells than there are.
pub proof fn law_a_clipped_line_says_so(line: Seq<char>, width: nat)
    ensures
        text::text_width(line) <= width ==> clipped(line, width) == line,
        text::text_width(line) > width ==> ({
            let cut = clipped(line, width);
            &&& cut.len() >= 1
            &&& cut.last() == '\u{2026}'
            &&& cut.drop_last().is_prefix_of(line)
            &&& width > 0 ==> text::cells(cut.drop_last()) + 1 <= width
            &&& width == 0 ==> text::cells(cut.drop_last()) == 0
        }),
{
    let room = if width == 0 {
        0
    } else {
        (width - 1) as nat
    };
    text::law_a_cut_keeps_as_much_as_fits(line, room);
    let kept = text::longest_prefix(line, room);
    assert(kept.push('\u{2026}').drop_last() =~= kept);
}

/// A title is marked exactly where its track is in the library, and the mark stands in front
/// of it.
pub proof fn law_saved_titles_are_marked(
    track: TrackModel,
    nerdfont: bool,
    width: nat,
)
    ensures
        text::text_width(track.title) <= width / 2 ==> result_title(track, false, nerdfont, width)
            == track.title,
        ({
            let mark = if nerdfont {
                '\u{f012c}'
            } else {
                '\u{2665}'
            };
            text::text_width(seq![mark, ' '] + track.title) <= width / 2 ==> result_title(
                track,
                true,
                nerdfont,
                width,
            ) == seq![mark, ' '] + track.title
        }),
{
    reveal_strlit("");
    reveal_strlit("\u{f012c} ");
    reveal_strlit("\u{2665} ");
    assert(""@ + track.title =~= track.title);
    assert("\u{f012c} "@ =~= seq!['\u{f012c}', ' ']);
    assert("\u{2665} "@ =~= seq!['\u{2665}', ' ']);
}

/// Where there is nothing to list, the overlay says why: a search that failed is told from
/// one that is still out, that from a query that is blank, and that from one that found
/// nothing.
pub proof fn law_an_empty_list_says_why(overlay: OverlayModel)
    ensures
        ({
            let said = message(overlay);
            let results = overlay.results;
            let blank = text::trimmed(overlay.query).len() == 0;
            &&& said == "search failed"@ <==> results.failed
            &&& said == "searching\u{2026}"@ <==> !results.failed && results.searching
            &&& said == "type to search Spotify"@ <==> !results.failed && !results.searching
                && blank
            &&& said == "no results"@ <==> !results.failed && !results.searching && !blank
        }),
{
    reveal_strlit("search failed");
    reveal_strlit("searching\u{2026}");
    reveal_strlit("type to search Spotify");
    reveal_strlit("no results");
    assert("search failed"@.len() == 13 && "searching\u{2026}"@.len() == 10
        && "type to search Spotify"@.len() == 22 && "no results"@.len() == 10);
    assert("searching\u{2026}"@[0] == 's' && "no results"@[0] == 'n');
}

/// What the last line says of the keys is so: where it offers to close, Escape closes, and
/// where it offers a way back, Escape leads back. Digits are offered only where there is
/// something to pick.
pub proof fn law_the_hint_names_keys_that_work(overlay: OverlayModel, shelf: Shelf)
    ensures
        ({
            let line = hint(overlay);
            let escape = outcome_of(overlay, Input::Esc, shelf);
            &&& line.len() >= 10
            &&& line.skip(line.len() - 5) == seq!['c', 'l', 'o', 's', 'e'] <==> escape
                == OutcomeModel::Close
            &&& line.skip(line.len() - 4) == seq!['b', 'a', 'c', 'k'] <==> after_event(
                overlay,
                Input::Esc,
                shelf,
            ) != overlay
            &&& line[0] == '1' <==> overlay.stage is Acting || overlay.results.tracks.len() > 0
        }),
{
    reveal_strlit("Esc  close");
    reveal_strlit("1-4  pick     Alt+digit  type it     Esc  close");
    reveal_strlit("1  play next     2  play now     3  radio     Esc  back");
    let line = hint(overlay);
    let (close, back) = (seq!['c', 'l', 'o', 's', 'e'], seq!['b', 'a', 'c', 'k']);
    assert(close[4] == 'e' && back[3] == 'k');
    match overlay.stage {
        Stage::Typing => {
            assert(line.skip(line.len() - 5) =~= close);
            assert(line.skip(line.len() - 4)[3] == 'e');
        },
        Stage::Acting(_) => {
            assert(line.skip(line.len() - 4) =~= back);
            assert(line.skip(line.len() - 5)[4] == 'k');
        },
    }
}

/// Searching reads the cache and does not change what it holds: every query that it knew is
/// known as before, with the same results of the same age, no stamp runs ahead of the clock,
/// and a blank query is not even looked up.
pub proof fn law_searching_only_reads_the_cache(
    query: Seq<char>,
    shelf: Shelf,
    clock: u64,
    key: Seq<char>,
)
    requires
        clock < u64::MAX - 1,
        search_cache::in_step(shelf.cache, clock),
    ensures
        ({
            let after = cache_after(query, shelf, clock);
            let ticks = clock_after(query, shelf, clock);
            &&& after.contains_key(key) <==> shelf.cache.contains_key(key)
            &&& shelf.cache.contains_key(key) ==> after[key].tracks == shelf.cache[key].tracks
                && after[key].fetched == shelf.cache[key].fetched
            &&& search_cache::in_step(after, ticks)
            &&& clock <= ticks <= clock + 2
            &&& text::trimmed(query).len() == 0 ==> after == shelf.cache && ticks == clock
            &&& text::trimmed(query).len() > 0 ==> ticks > clock
        }),
{
}

/// The line that is typed on shows the query, and a cursor behind it exactly while it can be
/// typed on.
pub proof fn law_the_cursor_shows_where_to_type(overlay: OverlayModel, width: nat)
    ensures
        ({
            let marks = query_marks(overlay, width);
            let line = if overlay.stage == Stage::Typing {
                overlay.query.push('\u{258f}')
            } else {
                overlay.query
            };
            &&& marks.len() == 2
            &&& marks[0].y == marks[1].y && marks[0].x + 2 == marks[1].x
            &&& text::text_width(line) <= width ==> marks[1].text == line
        }),
{
    reveal_strlit("\u{258f}");
    reveal_strlit("");
    assert(overlay.query + "\u{258f}"@ =~= overlay.query.push('\u{258f}'));
    assert(overlay.query + ""@ =~= overlay.query);
}

/// The artists of a result stand in its row, two columns behind its title, where there is
/// room for them.
pub proof fn law_artists_stand_behind_the_title(
    track: TrackModel,
    index: int,
    chosen: bool,
    saved: bool,
    nerdfont: bool,
    width: nat,
)
    ensures
        ({
            let marks = result_marks(track, index, chosen, saved, nerdfont, width);
            let (label, title, artists) = (marks[0], marks[1], marks[2]);
            let end = title.x + text::text_width(title.text);
            &&& label.y == title.y
            &&& marks.len() == 3 <==> end + 2 < width
            &&& marks.len() == 2 <==> end + 2 >= width
            &&& marks.len() == 3 ==> artists.y == title.y && artists.x == end + 2
            &&& marks.len() == 3 && artists.x + text::text_width(
                text::joined(track.artists, ", "@),
            ) <= width ==> artists.text == text::joined(track.artists, ", "@)
            &&& title.effect == Effect::Bold <==> chosen
            &&& label.ink == Ink::Highlight <==> chosen
            &&& title.ink == Ink::Primary
            &&& marks.len() == 3 ==> artists.ink == Ink::Secondary
        }),
{
}

proof fn lemma_walls(right: int, rows: nat)
    ensures
        wall_marks(right, rows).len() == 2 * rows,
        forall|row: int|
            #![trigger wall_marks(right, rows)[2 * row]]
            0 <= row < rows ==> {
                let (one, other) = (
                    wall_marks(right, rows)[2 * row],
                    wall_marks(right, rows)[2 * row + 1],
                );
                &&& one.x == 0 && other.x == right
                &&& one.y == row + 1 && other.y == row + 1
            },
    decreases rows,
{
    if rows > 0 {
        let before = wall_marks(right, (rows - 1) as nat);
        let marks = wall_marks(right, rows);
        lemma_walls(right, (rows - 1) as nat);
        assert forall|row: int|
            #![trigger marks[2 * row]]
            0 <= row < rows implies {
            let (one, other) = (marks[2 * row], marks[2 * row + 1]);
            &&& one.x == 0 && other.x == right
            &&& one.y == row + 1 && other.y == row + 1
        } by {
            if row < rows - 1 {
                assert(marks[2 * row] == before[2 * row]);
                assert(marks[2 * row + 1] == before[2 * row + 1]);
            }
        }
    }
}

/// The frame of the overlay goes round it, over blanks: corners and a rule in its first and
/// its last row, a side in the first and in the last column of every row between, and its
/// name on the upper rule. Where there is no room for that there is no frame.
pub proof fn law_the_overlay_is_framed(size: Vec2, row: int)
    requires
        0 < row < size.y - 1,
    ensures
        size.x < 4 ==> frame_marks(size).len() == 0,
        size.x >= 4 ==> ({
            let marks = frame_marks(size);
            let top = size.y as int;
            let sides = top + 3 + 2 * (row - 1);
            let bottom = top + 3 + 2 * (size.y - 2);
            &&& marks.len() == bottom + 4
            &&& marks[top].x == 0 && marks[top].y == 0 && marks[top].text == seq!['\u{256d}']
            &&& marks[top + 1].x == 1 && marks[top + 1].text.len() == size.x - 2
            &&& marks[top + 2].x == size.x - 1 && marks[top + 2].y == 0 && marks[top + 2].text
                == seq!['\u{256e}']
            &&& marks[sides].x == 0 && marks[sides].y == row
            &&& marks[sides + 1].x == size.x - 1 && marks[sides + 1].y == row
            &&& marks[bottom].x == 0 && marks[bottom].y == size.y - 1 && marks[bottom].text
                == seq!['\u{2570}']
            &&& marks[bottom + 2].x == size.x - 1 && marks[bottom + 2].y == size.y - 1
                && marks[bottom + 2].text == seq!['\u{256f}']
            &&& marks.last().y == 0 && marks.last().text == " quick search "@
        }),
{
    if size.x >= 4 {
        reveal_strlit("\u{256d}");
        reveal_strlit("\u{256e}");
        reveal_strlit("\u{2570}");
        reveal_strlit("\u{256f}");
        assert("\u{256d}"@ =~= seq!['\u{256d}']);
        assert("\u{256e}"@ =~= seq!['\u{256e}']);
        assert("\u{2570}"@ =~= seq!['\u{2570}']);
        assert("\u{256f}"@ =~= seq!['\u{256f}']);
        let marks = frame_marks(size);
        let top = size.y as int;
        let walls = wall_marks(size.x - 1, (size.y - 2) as nat);
        lemma_walls(size.x - 1, (size.y - 2) as nat);
        let at = row - 1;
        assert(marks[top + 3 + 2 * at] == walls[2 * at]);
        assert(marks[top + 3 + 2 * at + 1] == walls[2 * at + 1]);
    }
}

} // verus!
