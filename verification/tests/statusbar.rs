use ncspot::canvas::{Ink, Sheet, Vec2};
use ncspot::model::{Playable, PlayerEvent, RepeatSetting, Track};
use ncspot::ui::input::{Input, Mouse};
use ncspot::ui::statusbar::{
    animated, draw, equalizer, on_event, playback_indicator, required_size, statusbar_fps,
    volume_display, Nudge, Readout, Touch,
};

fn readout(status: PlayerEvent) -> Readout {
    Readout {
        status,
        progress: 0,
        volume: u16::MAX,
        repeat: RepeatSetting::Off,
        shuffle: false,
        current: None,
        line: String::new(),
        updating: false,
        nerdfont: false,
        flipped: false,
        fps: None,
        bands: None,
    }
}

fn track(duration: u32) -> Playable {
    Playable::Track(Track {
        id: None,
        uri: "spotify:track:solaris".to_string(),
        title: "Solaris".to_string(),
        track_number: 1,
        disc_number: 1,
        duration,
        artists: vec!["Juno Reactor".to_string()],
        artist_ids: vec![],
        album: None,
        album_id: None,
        album_artists: vec![],
        cover_url: None,
        url: String::new(),
        added_at: None,
        list_index: 0,
        is_local: false,
        is_playable: Some(true),
    })
}

#[test]
fn the_equalizer_gives_way_to_the_icon_when_there_is_no_audio() {
    // Paused, so there is nothing to show a level for.
    let paused = readout(PlayerEvent::Paused(1_000_000_000));
    assert!(equalizer(&paused).is_none());
    assert_eq!(
        playback_indicator(paused.status, paused.nerdfont, paused.flipped),
        "\u{25ae}\u{25ae}"
    );

    // Playing, but no packet has ever reached the tap: the icon stands in rather than the
    // bars sitting at zero pretending to be a level.
    let playing = readout(PlayerEvent::Playing(0));
    assert!(equalizer(&playing).is_none());
}

#[test]
fn the_equalizer_shows_its_levels() {
    let mut playing = readout(PlayerEvent::Playing(0));
    playing.bands = Some(vec![0, 4, 9]);
    assert_eq!(equalizer(&playing).as_deref(), Some("▁▄█"));
    playing.fps = Some(0);
    assert!(equalizer(&playing).is_none());
    playing.fps = Some(5);
    playing.status = PlayerEvent::Paused(0);
    assert!(equalizer(&playing).is_none());
}

#[test]
fn the_statusbar_is_slower_than_the_card() {
    assert_eq!(statusbar_fps(None), 12);
    assert_eq!(statusbar_fps(Some(5)), 5);
    assert_eq!(statusbar_fps(Some(60)), 12);
    assert!(animated(None) && animated(Some(1)) && !animated(Some(0)));
    assert_eq!(required_size(Vec2::new(80, 24)), Vec2::new(80, 2));
}

#[test]
fn an_indicator_can_be_flipped() {
    let states = [PlayerEvent::Playing(0), PlayerEvent::Paused(0), PlayerEvent::Stopped];
    let icons = |nerdfont: bool, flipped: bool| {
        states.map(|status| playback_indicator(status, nerdfont, flipped))
    };
    assert_eq!(icons(false, false), ["▶ ", "▮▮", "◼ "]);
    assert_eq!(icons(false, true), ["▮▮", "▶ ", "▶ "]);
    assert_eq!(icons(true, false), ["\u{f04b} ", "\u{f04c} ", "\u{f04d} "]);
    assert_eq!(icons(true, true), ["\u{f04c} ", "\u{f04b} ", "\u{f04b} "]);
    assert_eq!(
        playback_indicator(PlayerEvent::FinishedTrack, false, false),
        playback_indicator(PlayerEvent::Stopped, false, false)
    );
}

/// The last text printed at a cell in a colour.
fn printed(sheet: &Sheet, x: usize, y: usize, ink: Ink) -> Option<String> {
    sheet
        .prints
        .iter()
        .rev()
        .find(|print| print.x == x && print.y == y && print.ink == ink)
        .map(|print| print.text.clone())
}

#[test]
fn the_readout_is_held_to_the_right() {
    let mut state = readout(PlayerEvent::Paused(0));
    state.updating = true;
    state.repeat = RepeatSetting::RepeatTrack;
    state.shuffle = true;
    state.current = Some(track(125_000));
    state.progress = 61_999_000_000;
    state.line = "Juno Reactor - Solaris".to_string();
    let sheet = draw(Vec2::new(80, 2), &state);
    let right = "[U] [R1] [Z] 1:01 / 2:05 [100%]";
    assert_eq!(printed(&sheet, 80 - right.len(), 1, Ink::Status).as_deref(), Some(right));
    assert_eq!(
        printed(&sheet, 4, 1, Ink::Status).as_deref(),
        Some("Juno Reactor - Solaris")
    );
    assert_eq!(printed(&sheet, 1, 1, Ink::Status).as_deref(), Some("▮▮"));
    assert_eq!(printed(&sheet, 0, 0, Ink::BarTrack), Some("┉".repeat(80)));
    // 61 999 of 125 000 milliseconds are 79.3 half cells.
    assert_eq!(printed(&sheet, 0, 0, Ink::Bar), Some("━".repeat(40)));
    assert_eq!(printed(&sheet, 40, 0, Ink::Bar).as_deref(), Some("╸"));
}

#[test]
fn a_statusbar_without_an_item_shows_the_volume() {
    let mut state = readout(PlayerEvent::Stopped);
    state.volume = 0;
    let sheet = draw(Vec2::new(20, 2), &state);
    assert_eq!(printed(&sheet, 15, 1, Ink::Status).as_deref(), Some(" [0%]"));
    assert!(printed(&sheet, 0, 0, Ink::Bar).is_none());
    assert!(draw(Vec2::new(0, 2), &state).prints.is_empty());
}

#[test]
fn a_long_name_scrolls_before_the_readout() {
    let mut state = readout(PlayerEvent::Playing(0));
    state.current = Some(track(100_000));
    state.line = "a very long track title indeed".to_string();
    let sheet = draw(Vec2::new(36, 2), &state);
    // " 0:00 / 1:40 [100%]" leaves 18 columns, six of them kept free.
    assert_eq!(printed(&sheet, 18, 1, Ink::Status).as_deref(), Some("0:00 / 1:40 [100%]"));
    assert_eq!(printed(&sheet, 4, 1, Ink::Status).as_deref(), Some("a very long "));
}

#[test]
fn the_bar_creeps_forward_on_a_long_item() {
    let mut state = readout(PlayerEvent::Playing(0));
    state.current = Some(track(12_000_000));
    let mut cells = |seconds: u128| {
        state.progress = seconds * 1_000_000_000;
        let sheet = draw(Vec2::new(200, 2), &state);
        printed(&sheet, 0, 0, Ink::Bar).unwrap().chars().count()
    };
    assert_eq!(cells(0), 1);
    assert_eq!((cells(10_737), cells(10_738)), (179, 179));
    assert_eq!(cells(12_000), 201);
    assert_eq!(cells(5_000_000), 201);
}

#[test]
fn the_bar_of_an_item_without_length_stays_at_its_start() {
    let mut state = readout(PlayerEvent::Playing(0));
    state.current = Some(track(0));
    state.progress = 1_000_000;
    let sheet = draw(Vec2::new(80, 2), &state);
    assert_eq!(printed(&sheet, 0, 0, Ink::Bar).as_deref(), Some("━"));
}

fn mouse(x: usize, y: usize, event: Mouse) -> Input {
    Input::Mouse { offset: Vec2::new(10, 20), position: Vec2::new(10 + x, 20 + y), event }
}

#[test]
fn the_bar_is_for_seeking() {
    let touch = |event: Mouse, item: bool| on_event(mouse(5, 0, event), 80, 1000, item);
    assert_eq!(
        touch(Mouse::WheelUp, true),
        Touch::Consumed(Some(Nudge::SeekRelative(-500)))
    );
    assert_eq!(
        touch(Mouse::WheelDown, true),
        Touch::Consumed(Some(Nudge::SeekRelative(500)))
    );
    assert_eq!(
        touch(Mouse::LeftPress, true),
        Touch::Consumed(Some(Nudge::SeekTo { part: 5, whole: 80 }))
    );
    assert_eq!(touch(Mouse::LeftPress, false), Touch::Consumed(None));
    assert_eq!(touch(Mouse::Other, true), Touch::Consumed(None));
}

#[test]
fn the_volume_is_for_the_volume_and_the_rest_for_playing() {
    // " [100%]" has seven cells.
    let touch = |x: usize, event: Mouse| on_event(mouse(x, 1, event), 80, u16::MAX, true);
    assert_eq!(volume_display(u16::MAX), " [100%]");
    assert_eq!(
        touch(74, Mouse::WheelDown),
        Touch::Consumed(Some(Nudge::SetVolume(u16::MAX - 655)))
    );
    assert_eq!(
        touch(80, Mouse::WheelUp),
        Touch::Consumed(Some(Nudge::SetVolume(u16::MAX)))
    );
    assert_eq!(touch(74, Mouse::LeftPress), Touch::Consumed(None));
    assert_eq!(
        touch(73, Mouse::LeftPress),
        Touch::Consumed(Some(Nudge::TogglePlayback))
    );
    assert_eq!(touch(73, Mouse::WheelUp), Touch::Consumed(None));
    assert_eq!(on_event(Input::Char('x'), 80, 0, true), Touch::Ignored);
}
