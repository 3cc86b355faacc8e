use ncspot::canvas::{Effect, Ink, Vec2};
use ncspot::model::Track;
use ncspot::search_cache::SearchCache;
use ncspot::ui::input::Input;
use ncspot::ui::quick_search::{
    covers_of, local_matches, local_score, merge, required_size, station, Action, Landing, Outcome,
    QuickSearch, Reply, Request, Search, Stage, RESULTS,
};

fn track(title: &str) -> Track {
    Track {
        id: Some(title.to_string()),
        uri: format!("spotify:track:{title}"),
        title: title.to_string(),
        track_number: 1,
        disc_number: 1,
        duration: 1000,
        artists: vec!["Artist".to_string()],
        artist_ids: vec![],
        album: Some("Album".to_string()),
        album_id: None,
        album_artists: vec![],
        cover_url: None,
        url: String::new(),
        added_at: None,
        list_index: 0,
        is_local: false,
        is_playable: Some(true),
    }
}

/// A search overlay with the library and the cache that it draws on.
struct Bench {
    search: QuickSearch,
    library: Vec<Track>,
    cache: SearchCache,
}

fn overlay(found: usize) -> Bench {
    let mut bench =
        Bench { search: QuickSearch::new(), library: vec![], cache: SearchCache::new() };
    seed(&mut bench, found);
    bench
}

/// Put results on screen, as a landed search would. Typing clears them, so a test that types
/// first has to seed again afterwards.
fn seed(bench: &mut Bench, found: usize) {
    bench.search.results.tracks = (0..found).map(|i| track(&format!("result {i}"))).collect();
}

fn send(bench: &mut Bench, event: Input) -> Outcome {
    bench.search.on_event(event, &bench.library, &mut bench.cache, 0)
}

fn press(bench: &mut Bench, event: Input) -> Outcome {
    let outcome = send(bench, event);
    assert!(!matches!(outcome, Outcome::Ignored), "{event:?} was ignored");
    outcome
}

fn first_title(bench: &Bench) -> Option<String> {
    bench.search.results.tracks.first().map(|found| found.title.clone())
}

#[test]
fn typing_builds_the_query() {
    let mut search = overlay(0);
    press(&mut search, Input::Char('a'));
    press(&mut search, Input::Char('b'));
    press(&mut search, Input::Backspace);
    press(&mut search, Input::Char('c'));
    assert_eq!(search.search.query, "ac");
    assert_eq!(search.search.stage, Stage::Typing);
}

#[test]
fn a_digit_picks_the_result_it_numbers() {
    let mut search = overlay(RESULTS);
    press(&mut search, Input::Char('2'));
    assert_eq!(search.search.stage, Stage::Acting(1));
    // The digit chose a result rather than being typed.
    assert!(search.search.query.is_empty());
}

#[test]
fn a_digit_types_when_there_is_nothing_to_pick() {
    // A query can still start with a number, because nothing is numbered yet.
    let mut search = overlay(0);
    press(&mut search, Input::Char('9'));
    press(&mut search, Input::Char('9'));
    assert_eq!(search.search.query, "99");
    assert_eq!(search.search.stage, Stage::Typing);
}

#[test]
fn alt_types_a_digit_that_would_otherwise_pick() {
    let mut search = overlay(RESULTS);
    for character in "blink ".chars() {
        press(&mut search, Input::Char(character));
    }
    seed(&mut search, RESULTS);
    for character in "182".chars() {
        press(&mut search, Input::AltChar(character));
    }
    assert_eq!(search.search.query, "blink 182");
    assert_eq!(search.search.stage, Stage::Typing);
}

#[test]
fn enter_does_nothing_without_results() {
    let mut search = overlay(0);
    press(&mut search, Input::Enter);
    assert_eq!(search.search.stage, Stage::Typing);
}

#[test]
fn typing_on_a_chosen_result_returns_to_the_query() {
    let mut search = overlay(RESULTS);
    press(&mut search, Input::Enter);
    press(&mut search, Input::Char('x'));
    assert_eq!(search.search.stage, Stage::Typing);
    assert_eq!(search.search.query, "x");
}

#[test]
fn escape_walks_back_to_the_query_before_closing() {
    let mut search = overlay(RESULTS);
    press(&mut search, Input::Char('1'));
    assert_eq!(search.search.stage, Stage::Acting(0));
    press(&mut search, Input::Esc);
    assert_eq!(search.search.stage, Stage::Typing);
    assert!(matches!(press(&mut search, Input::Esc), Outcome::Close));
}

#[test]
fn library_hits_land_on_the_keystroke() {
    let mut search = overlay(0);
    search.library.push(track("Solaris"));

    for character in "sol".chars() {
        press(&mut search, Input::Char(character));
    }
    // No request has had time to land, so this can only have come from the library that was
    // already in memory.
    assert_eq!(first_title(&search), Some("Solaris".to_string()));
}

#[test]
fn a_remembered_query_is_served_without_searching() {
    let mut search = overlay(0);
    search.cache.store("sol", vec![track("Cached")], 0);

    for character in "sol".chars() {
        press(&mut search, Input::Char(character));
    }
    assert_eq!(first_title(&search), Some("Cached".to_string()));
    assert!(!search.search.results.searching);
}

#[test]
fn a_prefix_fills_the_list_while_the_next_query_is_out() {
    let mut search = overlay(0);
    search.cache.store("sol", vec![track("Cached")], 0);

    for character in "solar".chars() {
        press(&mut search, Input::Char(character));
    }
    // The longer query is not cached, so its results are still coming, but the prefix's keep
    // the list from going blank.
    assert_eq!(first_title(&search), Some("Cached".to_string()));
    assert!(search.search.results.searching);
}

#[test]
fn merging_keeps_library_hits_first_and_drops_repeats() {
    let merged = merge(
        &vec![track("Owned")],
        &vec![
            track("Owned"),
            track("Found"),
            track("Other"),
            track("More"),
            track("Extra"),
        ],
    );
    let titles: Vec<String> = merged.iter().map(|found| found.title.clone()).collect();
    assert_eq!(titles, ["Owned", "Found", "Other", "More"]);
}

fn acted(outcome: Outcome) -> (Action, Option<String>) {
    match outcome {
        Outcome::Act(action, track) => (action, track.and_then(|track| track.id)),
        _ => panic!("nothing was done"),
    }
}

#[test]
fn play_next_inserts_after_the_current_item() {
    let mut search = overlay(RESULTS);
    press(&mut search, Input::Char('3'));
    let outcome = press(&mut search, Input::Char('1'));
    // What is queued is the picked result, and playback does not move to it.
    assert_eq!(acted(outcome), (Action::PlayNext, Some("result 2".to_string())));
}

#[test]
fn radio_starts_the_chosen_result_straight_away() {
    let mut search = overlay(RESULTS);
    press(&mut search, Input::Char('2'));
    let outcome = press(&mut search, Input::Char('3'));
    assert_eq!(acted(outcome), (Action::Radio, Some("result 1".to_string())));
}

#[test]
fn play_now_starts_the_chosen_result() {
    let mut search = overlay(RESULTS);
    press(&mut search, Input::Char('1'));
    let outcome = press(&mut search, Input::Char('2'));
    assert_eq!(acted(outcome), (Action::PlayNow, Some("result 0".to_string())));
}

#[test]
fn a_result_that_is_gone_closes_the_overlay_without_playing() {
    let mut search = overlay(2);
    press(&mut search, Input::Char('2'));
    seed(&mut search, 1);
    let outcome = press(&mut search, Input::Char('2'));
    assert_eq!(acted(outcome), (Action::PlayNow, None));
}

#[test]
fn keys_that_mean_nothing_are_left_to_others() {
    let mut search = overlay(1);
    assert!(matches!(send(&mut search, Input::Other), Outcome::Ignored));
    press(&mut search, Input::Enter);
    assert_eq!(search.search.stage, Stage::Acting(0));
    assert!(matches!(send(&mut search, Input::Enter), Outcome::Ignored));
    assert!(matches!(send(&mut search, Input::Backspace), Outcome::Ignored));
    assert!(matches!(send(&mut search, Input::AltChar('1')), Outcome::Ignored));
}

#[test]
fn a_match_is_the_better_the_earlier_it_is_found() {
    let mut song = track("Solaris");
    song.artists = vec!["Juno".to_string(), "Reactor".to_string()];
    song.album = Some("Shango".to_string());
    assert_eq!(local_score(&song, "sol"), Some(0));
    assert_eq!(local_score(&song, "juno, re"), Some(1));
    assert_eq!(local_score(&song, "laris"), Some(2));
    assert_eq!(local_score(&song, "react"), Some(3));
    assert_eq!(local_score(&song, "hango"), Some(4));
    assert_eq!(local_score(&song, "orbital"), None);
    song.album = None;
    assert_eq!(local_score(&song, "hango"), None);
}

#[test]
fn the_library_gives_its_two_best_matches() {
    let library = vec![track("The sun"), track("Sun one"), track("Moon"), track("SUN two")];
    let titles = |query: &str| -> Vec<String> {
        local_matches(&library, query).iter().map(|found| found.title.clone()).collect()
    };
    assert_eq!(titles(" Sun "), ["Sun one", "SUN two"]);
    assert_eq!(titles("the"), ["The sun"]);
    assert_eq!(titles("artist"), ["The sun", "Sun one"]);
    assert!(titles("   ").is_empty());
    assert!(titles("nothing").is_empty());
}

#[test]
fn a_station_does_not_repeat_its_seed() {
    let found = vec![track("a"), track("seed"), track("b"), track("seed")];
    let rest = station(&found, "spotify:track:seed");
    let titles: Vec<String> = rest.iter().map(|found| found.title.clone()).collect();
    assert_eq!(titles, ["a", "b"]);
}

#[test]
fn only_tracks_with_a_cover_have_one_to_fetch() {
    let mut covered = track("covered");
    covered.cover_url = Some("https://example.invalid/cover.jpg".to_string());
    let urls = covers_of(&vec![track("bare"), covered]);
    assert_eq!(urls, ["https://example.invalid/cover.jpg"]);
}

fn asked(bench: &mut Bench, query: &str) -> Request {
    let mut request = None;
    for character in query.chars() {
        if let Outcome::Searched(Search::Ask(asked)) = press(bench, Input::Char(character)) {
            request = Some(asked);
        }
    }
    request.expect("the catalogue has to be asked")
}

#[test]
fn an_answer_is_shown_and_remembered() {
    let mut bench = overlay(0);
    bench.library.push(track("solo"));
    let request = asked(&mut bench, "sol");
    assert_eq!(request.query, "sol");
    assert!(bench.search.results.searching);

    let reply = Reply::Tracks(vec![track("solo"), track("solaris")]);
    let landing = bench.search.land(&mut bench.cache, request, reply, 5);
    assert!(matches!(landing, Landing::Stored(_)));
    assert!(!bench.search.results.searching);
    let titles: Vec<String> =
        bench.search.results.tracks.iter().map(|found| found.title.clone()).collect();
    assert_eq!(titles, ["solo", "solaris"]);
    assert_eq!(bench.cache.fresh("SOL", 5).map(|tracks| tracks.len()), Some(2));
}

#[test]
fn an_answer_that_comes_too_late_is_dropped() {
    let mut bench = overlay(0);
    let request = asked(&mut bench, "sol");
    press(&mut bench, Input::Char('a'));
    let reply = Reply::Tracks(vec![track("late")]);
    let landing = bench.search.land(&mut bench.cache, request, reply, 5);
    assert!(matches!(landing, Landing::Stale));
    assert!(bench.search.results.tracks.is_empty());
    assert!(bench.cache.fresh("sol", 5).is_none());
}

#[test]
fn a_failure_keeps_what_is_on_screen() {
    let mut bench = overlay(0);
    let request = asked(&mut bench, "sol");
    seed(&mut bench, 1);
    assert!(matches!(bench.search.land(&mut bench.cache, request, Reply::Failed, 5), Landing::Shown));
    assert!(!bench.search.results.failed);
    assert_eq!(bench.search.results.tracks.len(), 1);

    let mut bench = overlay(0);
    let request = asked(&mut bench, "sol");
    bench.search.land(&mut bench.cache, request, Reply::Failed, 5);
    assert!(bench.search.results.failed);
    assert!(!bench.search.results.searching);

    let mut bench = overlay(0);
    let request = asked(&mut bench, "sol");
    bench.search.land(&mut bench.cache, request, Reply::Unexpected, 5);
    assert!(!bench.search.results.failed && !bench.search.results.searching);
}

#[test]
fn a_query_of_blanks_is_no_query() {
    let mut bench = overlay(2);
    let outcome = press(&mut bench, Input::Char(' '));
    assert!(matches!(outcome, Outcome::Searched(Search::Cleared)));
    assert!(bench.search.results.tracks.is_empty());
}

#[test]
fn the_overlay_asks_for_what_it_needs() {
    assert_eq!(required_size(Vec2::new(200, 100)), Vec2::new(62, 11));
    assert_eq!(required_size(Vec2::new(20, 5)), Vec2::new(20, 5));
}

/// What is printed at a cell last.
fn printed(bench: &Bench, size: Vec2, x: usize, y: usize) -> Option<(String, Ink, Effect)> {
    let sheet = bench.search.draw(size, &vec![true], false);
    sheet
        .prints
        .iter()
        .rev()
        .find(|print| print.x == x && print.y == y)
        .map(|print| (print.text.clone(), print.ink, print.effect))
}

#[test]
fn the_overlay_lists_its_results() {
    let mut bench = overlay(2);
    press(&mut bench, Input::Char('2'));
    let size = Vec2::new(62, 11);
    let cell = |x: usize, y: usize| printed(&bench, size, x, y).unwrap();
    assert_eq!(cell(3, 0), (" quick search ".to_string(), Ink::Title, Effect::Simple));
    assert_eq!(cell(2, 4), (" 1 ".to_string(), Ink::Secondary, Effect::Simple));
    assert_eq!(cell(6, 4), ("♥ result 0".to_string(), Ink::Primary, Effect::Simple));
    assert_eq!(cell(2, 5), (" 2 ".to_string(), Ink::Highlight, Effect::Simple));
    assert_eq!(cell(6, 5), ("result 1".to_string(), Ink::Primary, Effect::Bold));
    assert_eq!(cell(16, 5), ("Artist".to_string(), Ink::Secondary, Effect::Simple));
    assert_eq!(cell(2, 9).0, "1  play next     2  play now     3  radio     Esc  back");
    assert_eq!(cell(61, 10).0, "╯");
    assert_eq!(cell(0, 5).0, "│");
}

#[test]
fn the_overlay_says_why_it_is_empty() {
    let size = Vec2::new(62, 11);
    let message = |bench: &Bench| printed(bench, size, 4, 4).unwrap().0;
    let mut bench = overlay(0);
    assert_eq!(message(&bench), "type to search Spotify");
    assert_eq!(printed(&bench, size, 4, 2).unwrap().0, "▏");
    press(&mut bench, Input::Char('x'));
    assert_eq!(message(&bench), "searching…");
    assert_eq!(printed(&bench, size, 4, 2).unwrap().0, "x▏");
    bench.search.results.searching = false;
    assert_eq!(message(&bench), "no results");
    bench.search.results.failed = true;
    assert_eq!(message(&bench), "search failed");
    assert_eq!(printed(&bench, size, 2, 9).unwrap().0, "Esc  close");
}

#[test]
fn an_overlay_without_room_stays_empty() {
    let bench = overlay(1);
    assert!(bench.search.draw(Vec2::new(3, 11), &vec![], false).prints.is_empty());
    assert!(printed(&bench, Vec2::new(11, 11), 2, 4).is_none());
    assert_eq!(printed(&bench, Vec2::new(11, 11), 0, 0).unwrap().0, "╭");
}

#[test]
fn long_results_are_cut() {
    let mut bench = overlay(1);
    bench.search.results.tracks[0].title = "a title that is far too long".to_string();
    bench.search.results.tracks[0].artists = vec!["somebody with a long name".to_string()];
    let size = Vec2::new(30, 11);
    assert_eq!(printed(&bench, size, 6, 4).unwrap().0, "♥ a title t…");
    assert_eq!(printed(&bench, size, 20, 4).unwrap().0, "som…");
}
