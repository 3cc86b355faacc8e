use ncspot::model::Track;
use ncspot::search_cache::{normalize, SearchCache, Stored, FRESH_FOR, MAX_QUERIES};
use ncspot::stamps::LATEST;

fn track(title: &str) -> Track {
    Track {
        id: Some(title.to_string()),
        uri: format!("spotify:track:{title}"),
        title: title.to_string(),
        track_number: 1,
        disc_number: 1,
        duration: 1000,
        artists: vec![],
        artist_ids: vec![],
        album: None,
        album_id: None,
        album_artists: vec![],
        cover_url: None,
        url: String::new(),
        added_at: None,
        list_index: 0,
        is_local: false,
        is_playable: Some(true),
    }
}

#[test]
fn a_stored_query_comes_back_for_any_casing() {
    let mut cache = SearchCache::new();
    cache.store("Juno Reactor", vec![track("Solaris")], 0);
    assert_eq!(cache.fresh("  juno reactor ", 0).unwrap().len(), 1);
}

#[test]
fn a_longer_query_falls_back_to_its_longest_known_prefix() {
    let mut cache = SearchCache::new();
    cache.store("ju", vec![track("short")], 0);
    cache.store("juno", vec![track("long")], 0);

    let found = cache.best_effort("juno rea");
    assert_eq!(found.first().map(|t| t.title.clone()), Some("long".into()));
    // An unrelated query shares no prefix, so nothing stale is shown for it.
    assert!(cache.best_effort("orbital").is_empty());
}

#[test]
fn the_cache_stays_within_its_budget() {
    let mut cache = SearchCache::new();
    for index in 0..MAX_QUERIES + 10 {
        cache.store(&format!("query {index}"), vec![track("result")], 0);
    }
    assert_eq!(cache.len(), MAX_QUERIES);
    // The oldest queries are the ones that went.
    assert!(cache.fresh("query 0", 0).is_none());
    assert!(cache.fresh(&format!("query {}", MAX_QUERIES + 9), 0).is_some());
}

#[test]
fn a_query_is_remembered_without_its_casing_and_its_blanks() {
    assert_eq!(normalize("  Juno\tREACTOR \n"), "juno\treactor");
    assert_eq!(normalize("ÄÖ"), "äö");
    assert_eq!(normalize(" \u{3000} "), "");
}

#[test]
fn an_empty_query_is_not_remembered() {
    let mut cache = SearchCache::new();
    cache.store("   ", vec![track("nothing")], 0);
    assert_eq!(cache.len(), 0);
    assert!(cache.best_effort("").is_empty());
    assert!(cache.fresh("", 0).is_none());
}

#[test]
fn results_go_stale_but_are_still_shown() {
    let mut cache = SearchCache::new();
    cache.store("juno", vec![track("Solaris")], 1_000);
    assert!(cache.fresh("juno", 1_000 + FRESH_FOR - 1).is_some());
    assert!(cache.fresh("juno", 1_000 + FRESH_FOR).is_none());
    assert_eq!(cache.best_effort("juno").len(), 1);
    // Storing again makes them fresh again, in place of the old ones.
    cache.store("juno", vec![track("a"), track("b")], 1_000 + FRESH_FOR);
    assert_eq!(cache.fresh("juno", 1_000 + FRESH_FOR).unwrap().len(), 2);
    assert_eq!(cache.len(), 1);
}

#[test]
fn a_query_that_is_read_is_not_the_one_that_goes() {
    let mut cache = SearchCache::new();
    for index in 0..MAX_QUERIES {
        cache.store(&format!("query {index}"), vec![track("result")], 0);
    }
    assert!(cache.fresh("query 0", 0).is_some());
    cache.store("one more", vec![], 0);
    assert!(cache.fresh("query 0", 0).is_some());
    assert!(cache.fresh("query 1", 0).is_none());
}

#[test]
fn what_was_saved_is_restored_without_its_age() {
    let mut cache = SearchCache::new();
    cache.store("ju", vec![track("short")], 0);
    cache.store("juno", vec![track("long"), track("longer")], 0);

    let mut next = SearchCache::new();
    assert!(next.load(7, 7, cache.saved()));
    assert_eq!(next.len(), 2);
    assert!(next.fresh("juno", 0).is_none(), "restored results are asked for once");
    let titles: Vec<String> = next.best_effort("juno").iter().map(|t| t.title.clone()).collect();
    assert_eq!(titles, ["long", "longer"]);
}

#[test]
fn another_format_is_not_restored() {
    let mut cache = SearchCache::new();
    cache.store("ju", vec![track("short")], 0);
    let mut next = SearchCache::new();
    assert!(!next.load(6, 7, cache.saved()));
    assert_eq!(next.len(), 0);
}

fn stored(query: &str, used: u64) -> Stored {
    Stored { query: query.to_string(), tracks: vec![track(query)], used }
}

#[test]
fn a_query_that_is_only_consulted_is_not_the_one_that_goes() {
    let mut cache = SearchCache::new();
    for index in 0..MAX_QUERIES {
        cache.store(&format!("query {index}"), vec![track("r")], 0);
    }
    let before = cache.ticks();
    assert_eq!(cache.best_effort("query 0").len(), 1);
    assert_eq!(cache.ticks(), before + 1);
    cache.store("new", vec![track("n")], 0);
    assert!(cache.fresh("query 0", 0).is_some());
    assert!(cache.fresh("query 1", 0).is_none());
    // A prefix that answers counts as used, too.
    assert_eq!(cache.best_effort("query 2 and").len(), 1);
    cache.store("newer", vec![track("n")], 0);
    assert!(cache.fresh("query 2", 0).is_some());
    assert!(cache.fresh("query 3", 0).is_none());
    // An empty query is no read.
    let before = cache.ticks();
    assert!(cache.best_effort("  ").is_empty());
    assert_eq!(cache.ticks(), before);
}

#[test]
fn what_is_stored_into_a_restored_cache_comes_back() {
    let mut cache = SearchCache::new();
    let list = (0..MAX_QUERIES as u64).map(|i| stored(&format!("query {i}"), 1000 + i)).collect();
    assert!(cache.load(7, 7, list));
    assert_eq!(cache.ticks(), 1255);
    cache.store("new", vec![track("n")], 0);
    assert_eq!(cache.len(), MAX_QUERIES);
    assert_eq!(cache.fresh("new", 0).unwrap()[0].title, "n");
    // The one that was used longest ago is the one that went.
    assert!(cache.best_effort("query 0").is_empty());
    assert_eq!(cache.best_effort("query 100").len(), 1);
}

#[test]
fn a_later_entry_takes_the_place_of_an_earlier_one() {
    let mut cache = SearchCache::new();
    let mut again = stored("juno", 3);
    again.tracks = vec![track("a"), track("b")];
    assert!(cache.load(7, 7, vec![stored("juno", 9), stored("orbital", 5), again]));
    assert_eq!(cache.ticks(), 9);
    assert_eq!(cache.best_effort("juno").len(), 2);
    assert_eq!(cache.best_effort("orbital").len(), 1);
    assert!(cache.fresh("orbital", 0).is_none());
}

#[test]
fn normalizing_twice_changes_nothing() {
    for query in ["  Juno Reactor ", "\tABC\u{a0}", "", "x", "\u{3000}ÄÖ\n"] {
        let once = normalize(query);
        assert_eq!(normalize(&once), once);
        assert_eq!(normalize(&format!("  {query} ")), once);
    }
    assert_eq!(normalize("  Juno Reactor "), "juno reactor");
}

#[test]
fn stamps_at_the_end_of_counting_are_counted_anew() {
    let mut cache = SearchCache::new();
    let list = (0..MAX_QUERIES as u64)
        .map(|i| stored(&format!("query {i}"), u64::MAX - i))
        .collect();
    assert!(cache.load(7, 7, list));
    assert_eq!(cache.ticks(), 256);
    // The order of use is the one that was kept: the last of them was used longest ago.
    cache.store("new", vec![track("n")], 0);
    assert!(cache.fresh("new", 0).is_some());
    assert!(cache.best_effort("query 255").len() == 1, "query 2 and query 25 begin like it");
    let kept: Vec<String> = cache.saved().into_iter().map(|entry| entry.query).collect();
    assert_eq!(kept.len(), MAX_QUERIES);
    assert!(!kept.contains(&"query 255".to_string()));
    assert!(kept.contains(&"query 254".to_string()));
}

#[test]
fn stamps_with_room_left_are_kept() {
    let mut cache = SearchCache::new();
    assert!(cache.load(7, 7, vec![stored("a", LATEST), stored("b", 3)]));
    assert_eq!(cache.ticks(), LATEST);
    let mut cache = SearchCache::new();
    assert!(cache.load(7, 7, vec![stored("a", LATEST + 1), stored("b", 3), stored("c", 3)]));
    assert_eq!(cache.ticks(), 3);
    let mut used: Vec<(String, u64)> =
        cache.saved().into_iter().map(|entry| (entry.query, entry.used)).collect();
    used.sort();
    let expected = [("a", 2), ("b", 0), ("c", 0)].map(|(query, used)| (query.to_string(), used));
    assert_eq!(used, expected);
}

#[test]
fn languages_without_case_are_left_alone() {
    assert_eq!(normalize(" 农历新年 ABC "), "农历新年 abc");
    for c in ('\u{3041}'..='\u{30ff}').chain('\u{4e00}'..='\u{9fff}').chain('\u{ac00}'..='\u{d7a3}') {
        assert_eq!(normalize(&c.to_string()), c.to_string());
    }
}
