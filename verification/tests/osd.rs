use ncspot::canvas::{Effect, Ink, Vec2};
use ncspot::ui::osd::{
    attach, draw, flash, notify, tick, Flash, Panel, Tick, Ticker, DIM_AFTER, LIFETIME,
};

fn share(flash: &Flash) -> f32 {
    let (part, whole) = flash.fraction();
    part as f32 / whole as f32
}

#[test]
fn a_volume_reads_as_a_percentage_and_fills_its_bar() {
    let flash = Flash::Volume(50);
    assert_eq!(flash.label(), "volume 50%");
    assert!((share(&flash) - 0.5).abs() < f32::EPSILON);
    // Nothing sensible can overflow the bar.
    assert!((share(&Flash::Volume(400)) - 1.0).abs() < f32::EPSILON);
}

#[test]
fn a_notice_is_its_message_and_has_no_bar() {
    let flash = Flash::Notice("couldn't reach Spotify".to_string());
    assert_eq!(flash.label(), "couldn't reach Spotify");
    // Nothing is being measured, so nothing is filled in: a bar at zero would read as a
    // volume of nought rather than as no bar at all.
    assert_eq!(share(&flash), 0.0);
}

#[test]
fn a_seek_reads_as_a_position_in_the_track() {
    let flash = Flash::Seek { elapsed: 62_000, duration: 124_000 };
    assert_eq!(flash.label(), "1:02 / 2:04");
    assert!((share(&flash) - 0.5).abs() < f32::EPSILON);
    // A track with no length yet cannot say how far through it is.
    assert_eq!(share(&Flash::Seek { elapsed: 1000, duration: 0 }), 0.0);
    assert_eq!(share(&Flash::Seek { elapsed: u128::MAX, duration: 5 }), 1.0);
}

#[test]
fn a_notice_needs_a_screen() {
    let mut panel = Panel::new();
    assert_eq!(notify(&mut panel, "lost".to_string(), 0), None);
    assert!(panel.raised.is_none());
    attach(&mut panel);
    assert_eq!(notify(&mut panel, "found".to_string(), 0), Some(Ticker::Start));
    assert!(matches!(&panel.raised, Some((Flash::Notice(text), 0)) if text == "found"));
}

#[test]
fn one_ticker_is_enough() {
    let mut panel = Panel::new();
    assert_eq!(flash(&mut panel, Flash::Volume(1), 100), Ticker::Start);
    assert_eq!(flash(&mut panel, Flash::Volume(2), 100 + LIFETIME - 1), Ticker::Running);
    let later = 100 + 2 * LIFETIME;
    assert_eq!(flash(&mut panel, Flash::Volume(3), later), Ticker::Start);
    assert_eq!(tick(&mut panel, later + LIFETIME), Tick::Last);
    assert!(draw(&panel, Vec2::new(80, 24), later, true).prints.is_empty());
}

fn lines(panel: &Panel, size: Vec2, now: u128) -> Vec<(usize, usize, String, Ink)> {
    draw(panel, size, now, true)
        .prints
        .iter()
        .map(|print| (print.x, print.y, print.text.clone(), print.ink))
        .collect()
}

#[test]
fn the_panel_stands_in_the_middle() {
    let mut panel = Panel::new();
    flash(&mut panel, Flash::Volume(50), 0);
    let drawn = lines(&panel, Vec2::new(80, 24), 0);
    let inside = "─".repeat(34);
    assert_eq!(drawn[0], (22, 9, format!("╭{inside}╮"), Ink::PanelBorder));
    assert_eq!(drawn[1], (22, 10, "│".to_string(), Ink::PanelBorder));
    assert_eq!(drawn[2], (57, 10, "│".to_string(), Ink::PanelBorder));
    assert_eq!(drawn[3], (23, 10, " ".repeat(34), Ink::PanelBlank));
    assert_eq!(drawn[10], (22, 13, format!("╰{inside}╯"), Ink::PanelBorder));
    assert_eq!(drawn[11], (35, 10, "volume 50%".to_string(), Ink::PanelText));
    assert_eq!(drawn[12], (23, 12, "┄".repeat(34), Ink::PanelText));
    assert_eq!(drawn[13], (23, 12, "━".repeat(17), Ink::PanelBorder));
    assert_eq!(drawn.len(), 14);
}

#[test]
fn a_notice_is_as_wide_as_its_message() {
    let mut panel = Panel::new();
    let message = "x".repeat(50);
    flash(&mut panel, Flash::Notice(message.clone()), 0);
    let drawn = lines(&panel, Vec2::new(80, 24), 0);
    assert_eq!(drawn.len(), 12);
    assert_eq!(drawn[11], (15, 11, message, Ink::PanelText));
    // On a narrow screen it is cut.
    let drawn = lines(&panel, Vec2::new(30, 24), 0);
    assert_eq!(drawn[11], (2, 11, format!("{}…", "x".repeat(25)), Ink::PanelText));
}

#[test]
fn a_panel_without_room_or_past_its_time_is_not_drawn() {
    let mut panel = Panel::new();
    assert!(lines(&panel, Vec2::new(80, 24), 0).is_empty());
    flash(&mut panel, Flash::Volume(0), 0);
    assert!(lines(&panel, Vec2::new(15, 24), 0).is_empty());
    assert!(lines(&panel, Vec2::new(80, 6), 0).is_empty());
    assert!(lines(&panel, Vec2::new(80, 24), LIFETIME).is_empty());
    // An empty bar has no filled part.
    assert_eq!(lines(&panel, Vec2::new(16, 7), 0).len(), 13);
}

#[test]
fn a_panel_that_cannot_fade_dims() {
    let mut panel = Panel::new();
    flash(&mut panel, Flash::Volume(10), 0);
    let effect = |now: u128, fades: bool| {
        draw(&panel, Vec2::new(80, 24), now, fades).prints[0].effect
    };
    assert_eq!(effect(DIM_AFTER, false), Effect::Simple);
    assert_eq!(effect(DIM_AFTER + 1, false), Effect::Dim);
    assert_eq!(effect(DIM_AFTER + 1, true), Effect::Simple);
}

#[test]
fn each_flash_pushes_the_deadline_out() {
    let mut panel = Panel::new();
    attach(&mut panel);
    assert_eq!(flash(&mut panel, Flash::Volume(1), 0), Ticker::Start);
    assert_eq!(flash(&mut panel, Flash::Volume(2), 1_300_000_000), Ticker::Running);
    // The first one's time is over, but the second is up for the whole of its own.
    for now in [1_400_000_000, 2_000_000_000, 2_699_999_999] {
        assert_eq!(tick(&mut panel, now), Tick::Frame);
        assert!(matches!(panel.raised, Some((Flash::Volume(2), 1_300_000_000))));
    }
    assert_eq!(tick(&mut panel, 2_700_000_000), Tick::Last);
    assert!(panel.raised.is_none() && panel.attached);
    assert_eq!(tick(&mut panel, 2_700_000_001), Tick::Last);
}
