use ncspot::audio_tap::{
    band_peak, band_peaks, reorder, shown_levels, AudioTap, BeatDetector, Window, REFRACTORY, STALE_AFTER, WINDOW,
};

const SAMPLE_RATE: f32 = 44_100.0;

/// Interleaved stereo of a sine at `hz`, long enough to fill the window.
fn tone(hz: f32, amplitude: f32) -> Vec<f64> {
    (0..WINDOW)
        .flat_map(|index| {
            let angle = std::f32::consts::TAU * hz * index as f32 / SAMPLE_RATE;
            let sample = (amplitude * angle.sin()) as f64;
            [sample, sample]
        })
        .collect()
}

/// Two interleaved channels, averaged into one.
fn mono(samples: &[f64]) -> Vec<f32> {
    samples.chunks_exact(2).map(|frame| ((frame[0] + frame[1]) / 2.0) as f32).collect()
}

fn push(tap: &mut AudioTap<f32>, samples: &[f64], now: u128) {
    tap.push(samples.len(), &mono(samples), now);
}

#[test]
fn nothing_is_reported_until_a_window_has_been_heard() {
    let mut tap = AudioTap::new(0.0f32);
    assert!(tap.bands(24, 0).is_none(), "no audio has arrived yet");
    // A short packet leaves the window part filled, which is not enough to analyse without
    // reading the silence it was made with.
    push(&mut tap, &tone(1000.0, 0.5)[..64], 0);
    assert!(tap.bands(24, 0).is_none());
}

#[test]
fn a_second_kick_too_soon_is_ignored() {
    let mut detector = BeatDetector::new();
    assert!(detector.feed(true, 1.0f32.to_bits(), 1_000));
    let first = detector.last_beat;
    assert!(first.is_some());

    assert!(!detector.feed(true, 0.5f32.to_bits(), 1_000 + REFRACTORY - 1));
    assert_eq!(detector.last_beat, first, "one kick should not be counted twice");
    assert_eq!(detector.strength, 1.0f32.to_bits());

    assert!(detector.feed(true, 0.5f32.to_bits(), 1_000 + REFRACTORY));
    assert!(!detector.feed(false, 0.5f32.to_bits(), 1_000 + 9 * REFRACTORY));
}

#[test]
fn a_window_keeps_the_newest_samples_oldest_first() {
    let mut window = Window::new(0usize);
    for sample in 0..WINDOW - 1 {
        window.push(sample);
        assert!(window.ordered().is_none());
    }
    for sample in WINDOW - 1..3 * WINDOW + 7 {
        window.push(sample);
    }
    let expected: Vec<usize> = (2 * WINDOW + 7..3 * WINDOW + 7).collect();
    assert_eq!(window.ordered(), Some(expected));
}

#[test]
fn the_cut_of_packets_does_not_matter() {
    let samples: Vec<f32> = (0..3000).map(|index| index as f32).collect();
    let mut whole = AudioTap::new(0.0f32);
    whole.push(6000, &samples, 0);
    let mut cut = AudioTap::new(0.0f32);
    for packet in samples.chunks(70) {
        cut.push(2 * packet.len(), &packet.to_vec(), 0);
    }
    assert_eq!(whole.bands(1, 0), cut.bands(1, 0));
    assert_eq!(whole.bands(1, 0).unwrap(), samples[3000 - WINDOW..]);
}

#[test]
fn audio_goes_stale() {
    let mut tap = AudioTap::new(0.0f32);
    assert!(!tap.is_live(0));
    tap.push(0, &vec![], 10);
    assert!(!tap.is_live(10), "an empty packet is no sign of life");
    push(&mut tap, &tone(60.0, 0.5), 10);
    assert!(tap.is_live(10 + STALE_AFTER - 1));
    assert!(tap.bands(3, 10 + STALE_AFTER - 1).is_some());
    assert!(tap.bands(0, 10).is_none());
    assert!(!tap.is_live(10 + STALE_AFTER));
    assert!(tap.bands(3, 10 + STALE_AFTER).is_none());
    // One sample of two makes no frame, but the packet came.
    tap.push(1, &vec![], 20 + STALE_AFTER);
    assert!(tap.is_live(20 + STALE_AFTER));
}

#[test]
fn a_band_shows_its_loudest_bin() {
    let magnitudes: Vec<u32> = [0.1f32, 0.7, 0.3, 0.9].iter().map(|m| m.to_bits()).collect();
    assert_eq!(f32::from_bits(band_peak(&magnitudes, 0, 3)), 0.7);
    assert_eq!(f32::from_bits(band_peak(&magnitudes, 2, 100)), 0.9);
    assert_eq!(f32::from_bits(band_peak(&magnitudes, 4, 9)), 0.0);
    assert_eq!(f32::from_bits(band_peak(&magnitudes, 3, 3)), 0.0);
}

#[test]
fn a_transform_gets_its_input_in_bit_reversed_order() {
    let mut items: Vec<usize> = (0..8).collect();
    reorder(&mut items, 3);
    assert_eq!(items, [0, 4, 2, 6, 1, 5, 3, 7]);
    reorder(&mut items, 3);
    assert_eq!(items, [0, 1, 2, 3, 4, 5, 6, 7]);

    let mut items: Vec<usize> = (0..WINDOW).collect();
    reorder(&mut items, 10);
    for (index, item) in items.iter().enumerate() {
        assert_eq!(*item, index.reverse_bits() >> (usize::BITS - 10));
    }
}

#[test]
fn only_the_last_window_of_samples_counts() {
    let samples: Vec<u32> = (0..WINDOW as u32 + 300).collect();
    for cut in [1, 7, 500, 2000] {
        let mut tap = AudioTap::new(0u32);
        for packet in samples.chunks(cut) {
            tap.push(2 * packet.len(), &packet.to_vec(), 0);
        }
        assert_eq!(tap.bands(1, 0).unwrap(), samples[300..]);
        assert!(tap.bands(0, 0).is_none());
        assert!(tap.bands(1, STALE_AFTER).is_none());
    }
}

#[test]
fn a_level_is_shown_between_nothing_and_one() {
    let levels: Vec<u32> =
        [-0.5f32, -0.0, 0.0, 0.25, 1.0, 7.5].iter().map(|level| level.to_bits()).collect();
    let shown: Vec<f32> = shown_levels(&levels).into_iter().map(f32::from_bits).collect();
    assert_eq!(shown, [0.0, 0.0, 0.0, 0.25, 1.0, 1.0]);
}

#[test]
fn each_band_has_its_loudest_bin() {
    let magnitudes = vec![9, 1, 5, 3];
    assert_eq!(band_peaks(&magnitudes, &vec![(1, 3), (3, 9), (7, 8), (0, 1)]), [5, 3, 0, 9]);
    assert_eq!(band_peaks(&vec![0; 8], &vec![(0, 4), (2, 8)]), [0, 0]);
}
