use std::time::Duration;

use ncspot::ui::anim::{
    blendable, ceiling, frame_length, marquee, same_scale, window, Animator, Colour, Pace, Pacer,
    IDLE_INTERVAL, MARQUEE_HOLD, MARQUEE_STEP, SETTLE_FOR, VISIBLE_FOR,
};
use unicode_width::UnicodeWidthStr;

const HOLD: f64 = 2.0;
const SPEED: f64 = 4.0;

fn at(seconds: f64) -> u128 {
    Duration::from_secs_f64(seconds).as_nanos()
}

#[test]
fn text_that_fits_never_scrolls() {
    for seconds in [0.0, 1.0, 5.0, 60.0] {
        assert_eq!(marquee("short", 10, at(seconds)), "short");
    }
}

#[test]
fn a_long_line_holds_scrolls_and_comes_back() {
    let text = "a very long track title indeed";
    let width = 10;
    let start = marquee(text, width, at(0.0));
    assert_eq!(start, "a very lon");
    // Still resting at the start.
    assert_eq!(marquee(text, width, at(HOLD - 0.1)), start);

    let moved = marquee(text, width, at(HOLD + 1.0));
    assert_ne!(moved, start);
    assert_eq!(moved.width(), width);

    // At the far end the last cells of the text are visible.
    let overflow = text.width() - width;
    let end = marquee(text, width, at(HOLD + overflow as f64 / SPEED));
    assert_eq!(end, "itle indeed"[1..].to_string());

    // And the cycle returns to where it started.
    let cycle = 2.0 * (HOLD + overflow as f64 / SPEED);
    assert_eq!(marquee(text, width, at(cycle)), start);
}

#[test]
fn every_window_is_exactly_as_wide_as_asked() {
    // Double width characters, so every window has an edge to cut through.
    let text = "日本語のタイトルはここにあります";
    for start in 0..=(text.width() - 7) {
        assert_eq!(window(text, start, 7).width(), 7);
    }
}

#[test]
fn the_constants_of_a_scrolling_line_are_its_speed() {
    assert_eq!(MARQUEE_HOLD, at(HOLD));
    assert_eq!(MARQUEE_STEP, at(1.0 / SPEED));
}

#[test]
fn a_scrolling_line_moves_a_cell_at_a_time() {
    let text = "0123456789abcdef";
    // One second past the rest at the start, it has moved four cells; half way between two
    // cells it shows the later one.
    assert_eq!(marquee(text, 6, at(3.0)), "456789");
    assert_eq!(marquee(text, 6, at(3.125)), "56789a");
    assert_eq!(marquee(text, 6, at(3.124)), "456789");
    // It rests at the end for two seconds, and then comes back.
    assert_eq!(marquee(text, 6, at(4.5)), "abcdef");
    assert_eq!(marquee(text, 6, at(6.49)), "abcdef");
    assert_eq!(marquee(text, 6, at(7.5)), "6789ab");
}

#[test]
fn a_line_without_room_is_empty() {
    assert_eq!(marquee("anything", 0, 0), "");
    assert_eq!(marquee("", 5, 0), "");
    assert_eq!(window("anything", 3, 0), "");
}

#[test]
fn a_character_cut_by_an_edge_is_blank() {
    assert_eq!(window("日本語", 1, 4), " 本 ");
    assert_eq!(window("日本語", 0, 4), "日本");
    assert_eq!(window("abc", 1, 10), "bc");
}

#[test]
fn a_view_is_visible_for_a_while_after_it_was_drawn() {
    let mut animator = Animator::new();
    assert!(!animator.is_visible(0));
    animator.mark_drawn(1_000);
    assert!(animator.is_visible(1_000));
    assert!(animator.is_visible(1_000 + VISIBLE_FOR - 1));
    assert!(!animator.is_visible(1_000 + VISIBLE_FOR));
    // A clock that went back reads as no time at all.
    assert!(animator.is_visible(0));
}

#[test]
fn frames_keep_coming_until_the_band_has_settled() {
    let mut pacer = Pacer::new();
    assert_eq!(pacer.step(true, false, 0), Pace::Idle);
    assert_eq!(pacer.step(true, true, 10), Pace::Frame);
    assert_eq!(pacer.step(true, false, 10 + SETTLE_FOR - 1), Pace::Frame);
    assert_eq!(pacer.step(false, false, 11), Pace::Idle);
    assert_eq!(pacer.step(true, false, 10 + SETTLE_FOR), Pace::Idle);
    // Playing while nobody looks costs nothing, but is not forgotten.
    assert_eq!(pacer.step(false, true, 50), Pace::Idle);
    assert_eq!(pacer.step(true, false, 60), Pace::Frame);
    assert_eq!(IDLE_INTERVAL, 250_000_000);
}

#[test]
fn a_frame_rate_stays_within_its_bounds() {
    assert_eq!(frame_length(0), None);
    assert_eq!(frame_length(20), Some(50_000_000));
    assert_eq!(frame_length(1_000), frame_length(60));
    for fps in 1..=60u32 {
        let expected = Duration::from_secs_f64(1.0 / f64::from(fps)).as_nanos();
        assert_eq!(u128::from(frame_length(fps).unwrap()), expected);
    }
}

#[test]
fn only_colours_with_components_can_be_mixed() {
    let rgb = Colour::Rgb(1, 2, 3);
    let coarse = Colour::RgbLowRes(1, 2, 3);
    assert!(blendable(rgb) && blendable(coarse) && !blendable(Colour::Palette));
    assert!(same_scale(rgb, Colour::Rgb(0, 0, 0)));
    assert!(same_scale(coarse, coarse));
    assert!(!same_scale(rgb, coarse));
    assert!(!same_scale(Colour::Palette, rgb));
    assert_eq!(ceiling(rgb), Some(255));
    assert_eq!(ceiling(coarse), Some(5));
    assert_eq!(ceiling(Colour::Palette), None);
}

#[test]
fn a_line_is_measured_in_cells() {
    assert_eq!(marquee("日本", 4, 0), "日本");
    assert_eq!(marquee("日本", 3, 0), "日 ");
    assert_eq!(marquee("plain", 5, 0), "plain");
}
