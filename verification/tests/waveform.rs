use ncspot::model::{Episode, Playable, PlayerEvent, Track};
use ncspot::waveform::{
    bucket_of, observe, Stored, WaveformStore, BUCKETS, FULL, MAX_TRACKS, SAVE_EVERY, UNHEARD,
};

fn bits(level: f32) -> u32 {
    level.to_bits()
}

fn shape(store: &WaveformStore, id: &str, width: usize) -> Option<Vec<Option<f32>>> {
    let shape = store.shape(id, width)?;
    Some(shape.into_iter().map(|level| level.map(f32::from_bits)).collect())
}

#[test]
fn a_track_is_only_shaped_where_it_has_been_heard() {
    let mut store = WaveformStore::new();
    assert!(shape(&store, "solaris", 8).is_none());

    // Heard a quarter of the way in, and nowhere else.
    store.record("solaris", 25_000, 100_000, bits(0.8), 0);
    let shape = shape(&store, "solaris", 4).expect("one bucket is known");
    assert_eq!(shape[0], None);
    assert_eq!(shape[1], Some(0.8));
    assert_eq!(shape[2], None);
}

#[test]
fn a_bucket_keeps_the_loudest_level_it_heard() {
    let mut store = WaveformStore::new();
    store.record("solaris", 0, 100_000, bits(0.4), 0);
    store.record("solaris", 100, 100_000, bits(0.9), 0);
    store.record("solaris", 200, 100_000, bits(0.2), 0);
    assert_eq!(shape(&store, "solaris", 1).unwrap()[0], Some(0.9));
}

#[test]
fn a_track_with_no_length_is_not_recorded() {
    let mut store = WaveformStore::new();
    store.record("stream", 5_000, 0, bits(0.5), 0);
    assert!(shape(&store, "stream", 4).is_none());
    assert_eq!(bucket_of(5_000, 0), None);
    // The end of a track lands in the last bucket rather than past it.
    assert_eq!(bucket_of(100_000, 100_000), Some(BUCKETS - 1));
}

#[test]
fn the_store_stays_within_its_budget() {
    let mut store = WaveformStore::new();
    for index in 0..MAX_TRACKS + 5 {
        store.record(&format!("track {index}"), 0, 1000, bits(0.5), 0);
    }
    assert_eq!(store.len(), MAX_TRACKS);
    assert!(shape(&store, "track 0", 4).is_none());
    assert!(shape(&store, &format!("track {}", MAX_TRACKS + 4), 4).is_some());
}

#[test]
fn the_threshold_is_the_smallest_step_above_one() {
    assert_eq!(UNHEARD, bits(f32::EPSILON));
    let mut store = WaveformStore::new();
    store.record("quiet", 0, 1000, bits(f32::EPSILON), 0);
    assert!(shape(&store, "quiet", 4).is_none());
    store.record("quiet", 0, 1000, bits(f32::EPSILON * 2.0), 0);
    assert!(shape(&store, "quiet", 4).is_some());
}

#[test]
fn a_position_falls_in_its_share_of_the_buckets() {
    assert_eq!(bucket_of(0, 1000), Some(0));
    assert_eq!(bucket_of(500, 1000), Some(128));
    assert_eq!(bucket_of(999, 1000), Some(255));
    assert_eq!(bucket_of(u128::MAX, 1), Some(255));
}

#[test]
fn every_bucket_is_shown_at_any_width() {
    for width in [1, 3, 7, 100, 256, 300] {
        for bucket in [0u128, 1, 100, 255] {
            let mut store = WaveformStore::new();
            store.record("one", bucket, 256, bits(0.5), 0);
            let shape = shape(&store, "one", width).unwrap();
            assert_eq!(shape.len(), width);
            assert!(shape.contains(&Some(0.5)), "bucket {bucket} at width {width}");
        }
    }
    let store = WaveformStore::new();
    assert!(shape(&store, "one", 0).is_none());
}

#[test]
fn shapes_are_written_out_now_and_then() {
    let mut store = WaveformStore::new();
    assert!(store.record("one", 0, 1000, bits(0.5), 100));
    assert!(!store.record("one", 1, 1000, bits(0.5), 100 + SAVE_EVERY - 1));
    assert!(store.record("one", 2, 1000, bits(0.5), 100 + SAVE_EVERY));
    assert!(!store.record("stream", 2, 0, bits(0.5), 100 + 3 * SAVE_EVERY));
}

#[test]
fn shapes_survive_from_one_run_to_the_next() {
    let mut store = WaveformStore::new();
    store.record("one", 0, 1000, bits(0.5), 0);
    store.record("two", 999, 1000, bits(0.25), 0);

    let mut next = WaveformStore::new();
    assert!(next.load(3, 3, &store.saved()));
    assert_eq!(next.len(), 2);
    assert_eq!(shape(&next, "two", 2), Some(vec![None, Some(0.25)]));
    assert!(!WaveformStore::new().load(2, 3, &store.saved()));
}

#[test]
fn a_short_shape_is_filled_up_with_silence() {
    let mut store = WaveformStore::new();
    let short = Stored { id: "one".to_string(), levels: vec![bits(0.5)], used: 9 };
    assert!(store.load(1, 1, &vec![short]));
    assert_eq!(shape(&store, "one", 2), Some(vec![Some(0.5), Some(0.5)]));
    store.record("one", 999, 1000, bits(0.75), 0);
    assert_eq!(shape(&store, "one", 2), Some(vec![Some(0.5), Some(0.75)]));
}

fn track(id: Option<&str>, duration: u32) -> Option<Playable> {
    Some(Playable::Track(Track {
        id: id.map(str::to_string),
        uri: "spotify:track:solaris".to_string(),
        title: "Solaris".to_string(),
        track_number: 1,
        disc_number: 1,
        duration,
        artists: vec![],
        artist_ids: vec![],
        album: None,
        album_id: None,
        album_artists: vec![],
        cover_url: None,
        url: String::new(),
        added_at: None,
        list_index: 0,
        is_local: false,
        is_playable: Some(true),
    }))
}

#[test]
fn only_what_can_be_heard_is_observed() {
    let playing = PlayerEvent::Playing(0);
    let level = bits(0.5);
    let mut store = WaveformStore::new();
    let item = track(Some("solaris"), 1000);

    assert!(!observe(&mut store, PlayerEvent::Paused(0), true, &item, 0, level, 0));
    assert!(!observe(&mut store, playing, false, &item, 0, level, 0));
    assert!(!observe(&mut store, playing, true, &None, 0, level, 0));
    assert!(!observe(&mut store, playing, true, &track(None, 1000), 0, level, 0));
    assert!(!observe(&mut store, playing, true, &track(Some("solaris"), 0), 0, level, 0));
    assert_eq!(store.len(), 0);

    assert!(observe(&mut store, playing, true, &item, 500, level, 0));
    assert_eq!(shape(&store, "solaris", 2), Some(vec![None, Some(0.5)]));

    let episode = Some(Playable::Episode(Episode {
        id: "talk".to_string(),
        uri: "spotify:episode:talk".to_string(),
        name: "Talk".to_string(),
        duration: 1000,
        release_date: "2024-01-01".to_string(),
        cover_url: None,
    }));
    assert!(!observe(&mut store, playing, true, &episode, 0, level, 1));
    assert!(shape(&store, "talk", 1).is_some());
}

#[test]
fn a_level_never_exceeds_one() {
    let mut store = WaveformStore::new();
    store.record("loud", 0, 1000, bits(1.5), 0);
    assert_eq!(shape(&store, "loud", 1), Some(vec![Some(1.0)]));
    store.record("loud", 0, 1000, bits(1.0), 0);
    assert_eq!(shape(&store, "loud", 1), Some(vec![Some(1.0)]));
    let stored = Stored { id: "kept".to_string(), levels: vec![bits(2.0), bits(0.5)], used: 1 };
    assert!(store.load(1, 1, &vec![stored]));
    assert_eq!(shape(&store, "kept", 2), Some(vec![Some(1.0), Some(0.5)]));
    assert_eq!(FULL, bits(1.0));
}

#[test]
fn a_store_can_always_go_on_counting() {
    let mut store = WaveformStore::new();
    let kept = |id: &str, used: u64| Stored { id: id.to_string(), levels: vec![bits(0.5)], used };
    assert!(store.load(1, 1, &vec![kept("late", u64::MAX), kept("early", 4)]));
    assert_eq!(store.ticks(), 2);
    store.record("late", 0, 1000, bits(0.75), 0);
    assert_eq!(shape(&store, "late", 1), Some(vec![Some(0.75)]));
    let mut used: Vec<(String, u64)> =
        store.saved().into_iter().map(|entry| (entry.id, entry.used)).collect();
    used.sort();
    assert_eq!(used, [("early".to_string(), 0), ("late".to_string(), 3)]);
}
