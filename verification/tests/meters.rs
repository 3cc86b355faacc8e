use ncspot::ui::meters::{
    percent_complete, progress_eighths, remaining_label, truncate, volume_meter, volume_percent,
};

#[test]
fn progress_is_clamped_and_handles_empty_duration() {
    assert_eq!(progress_eighths(500, 1000, 20), 80);
    assert_eq!(progress_eighths(2000, 1000, 20), 160);
    assert_eq!(progress_eighths(500, 0, 20), 0);
    assert_eq!(progress_eighths(500, 1000, 0), 0);
}

#[test]
fn progress_resolves_below_a_single_cell() {
    // A third of the way into the first of 20 cells: two eighths, no full cell.
    assert_eq!(progress_eighths(17, 1000, 20), 2);
}

#[test]
fn percent_is_clamped_and_handles_empty_duration() {
    assert_eq!(percent_complete(500, 1000), 50);
    assert_eq!(percent_complete(5000, 1000), 100);
    assert_eq!(percent_complete(500, 0), 0);
}

#[test]
fn truncation_respects_terminal_cell_width() {
    assert_eq!(truncate("hello", 8), "hello");
    assert_eq!(truncate("hello", 4), "hel…");
    assert_eq!(truncate("音楽 test", 5), "音楽…");
    assert_eq!(truncate("hello", 1), "…");
    assert_eq!(truncate("hello", 0), "");
}

#[test]
fn remaining_counts_down_and_never_goes_negative() {
    assert_eq!(remaining_label(60_000, 180_000), "-2:00");
    assert_eq!(remaining_label(200_000, 180_000), "-0:00");
}

#[test]
fn volume_meter_fills_proportionally() {
    assert_eq!(volume_meter(0, 8), "▯▯▯▯▯▯▯▯");
    assert_eq!(volume_meter(50, 8), "▮▮▮▮▯▯▯▯");
    assert_eq!(volume_meter(100, 8), "▮▮▮▮▮▮▮▮");
    // Rounding must never overrun the meter, even above nominal volume.
    assert_eq!(volume_meter(150, 8), "▮▮▮▮▮▮▮▮");
}

#[test]
fn the_volume_is_rounded_to_the_nearest_percent() {
    for volume in 0..=u16::MAX {
        let expected = (volume as f64 / u16::MAX as f64 * 100.0).round() as u16;
        assert_eq!(volume_percent(volume), expected);
    }
}

#[test]
fn an_absurd_position_is_past_the_end() {
    assert_eq!(progress_eighths(u128::MAX, 1, 20), 160);
    assert_eq!(percent_complete(u128::MAX, u32::MAX), 100);
    assert_eq!(remaining_label(u128::MAX, 5), "-0:00");
}

#[test]
fn progress_creeps_forward_to_the_end() {
    let mut last = 0;
    for elapsed in 0..=1000 {
        let eighths = progress_eighths(elapsed, 1000, 7);
        assert!(eighths >= last && eighths <= 56);
        last = eighths;
    }
    assert_eq!(last, 56);
}

#[test]
fn a_cut_line_ends_in_an_ellipsis() {
    assert_eq!(truncate("音楽", 3), "音…");
    assert_eq!(truncate("音楽", 2), "…");
    assert_eq!(truncate("", 0), "");
}
