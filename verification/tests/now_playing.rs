use ncspot::canvas::Vec2;
use ncspot::model::{Episode, Order, Playable, PlayerEvent, RepeatSetting, Track};
use ncspot::ui::controls::{
    acts, first_artist, on_command, on_event, shown, Command, GotoMode, Reaction, Response, Shown,
    Task,
};
use ncspot::ui::input::{Input, Mouse};
use ncspot::ui::now_playing::{
    band_size, draw, metadata, next_up, queue_position, status, Art, Deck, Picture,
    ART_MIN_TEXT_WIDTH,
};
use ncspot::ui::spectrum::Band;
use unicode_width::{UnicodeWidthChar, UnicodeWidthStr};

fn track(title: &str, artist: &str, album: &str) -> Playable {
    Playable::Track(Track {
        id: Some(title.to_string()),
        uri: format!("spotify:track:{title}"),
        title: title.to_string(),
        track_number: 4,
        disc_number: 1,
        duration: 225_000,
        artists: vec![artist.to_string()],
        artist_ids: vec![],
        album: Some(album.to_string()),
        album_id: None,
        album_artists: vec![],
        cover_url: Some(format!("https://example.invalid/{title}.jpg")),
        url: String::new(),
        added_at: None,
        list_index: 0,
        is_local: false,
        is_playable: Some(true),
    })
}

const PAUSED: PlayerEvent = PlayerEvent::Paused(62_000_000_000);

/// Two tracks are queued, and the first of them is loaded.
fn queued(status: PlayerEvent) -> Deck {
    Deck {
        status,
        progress_ms: 62_000,
        volume: u16::MAX,
        repeat: RepeatSetting::Off,
        shuffle: false,
        current: Some(track("Solaris", "Juno Reactor", "Shango")),
        position: Some(0),
        queue_len: 2,
        next: Some(track("Pistolero", "Juno Reactor", "Shango")),
        saved: false,
        nerdfont: false,
        art: Art::Ready,
    }
}

fn nothing_queued() -> Deck {
    let mut deck = queued(PAUSED);
    deck.current = None;
    deck.next = None;
    deck.position = None;
    deck.queue_len = 0;
    deck
}

/// A band with every bar at `level` eighths.
fn flat_band(width: usize, level: usize) -> Band {
    Band {
        levels: vec![level; width],
        peaks: vec![level; width],
        reflections: vec![0; width],
        average: 0,
        loudest: 0,
    }
}

/// What is in each cell of the screen, the cover included.
fn screen(size: Vec2, picture: &Picture) -> Vec<Vec<String>> {
    let mut cells = vec![vec![String::new(); size.x]; size.y];
    let mut put = |x: usize, y: usize, text: &str| {
        let mut column = x;
        for glyph in text.chars() {
            let width = glyph.width().unwrap_or(0);
            if y < size.y && column + width <= size.x {
                cells[y][column] = glyph.to_string();
                for rest in column + 1..column + width {
                    cells[y][rest] = String::new();
                }
            }
            column += width;
        }
    };
    for print in &picture.sheet.prints {
        put(print.x, print.y, &print.text);
    }
    if let Some(art) = &picture.art {
        for row in 0..art.size.y {
            put(art.offset.x, art.offset.y + row, &"\u{2580}".repeat(art.size.x));
        }
    }
    cells
}

fn render(size: Vec2, deck: &Deck) -> Vec<Vec<String>> {
    screen(size, &draw(size, deck, &flat_band(61, 4)))
}

/// The rendered screen as plain rows of text, trailing blanks trimmed.
fn rows(cells: &[Vec<String>]) -> Vec<String> {
    cells.iter().map(|row| row.concat().trim_end().to_string()).collect()
}

/// The screen position of the first cell of `needle`.
fn find_text(cells: &[Vec<String>], needle: &str) -> Option<Vec2> {
    for (y, row) in cells.iter().enumerate() {
        for x in 0..row.len() {
            if row[x..].concat().starts_with(needle) {
                return Some(Vec2::new(x, y));
            }
        }
    }
    None
}

fn mouse(position: Vec2, event: Mouse) -> Input {
    Input::Mouse { offset: Vec2::new(0, 0), position, event }
}

/// Render and do something with the mouse at the first cell of `label`.
fn touch(size: Vec2, label: &str, event: Mouse, deck: &Deck) -> Reaction {
    let picture = draw(size, deck, &flat_band(61, 4));
    let cells = screen(size, &picture);
    let position = find_text(&cells, label)
        .unwrap_or_else(|| panic!("{label:?} is not on screen:\n{:#?}", rows(&cells)));
    on_event(&picture.hitboxes, mouse(position, event), deck)
}

/// Render and click once at the first cell of `label`.
fn click(size: Vec2, label: &str) -> Reaction {
    touch(size, label, Mouse::LeftPress, &queued(PAUSED))
}

#[test]
fn transport_commands_fall_through_to_the_player() {
    // Skip is a player-wide command, not a view command: the view has to ignore it so the
    // default handler runs.
    let deck = queued(PAUSED);
    for command in [Command::Next, Command::Previous, Command::TogglePlay] {
        assert!(
            matches!(on_command(command, &deck.current), Response::Ignored),
            "{command:?} was swallowed by the now playing view"
        );
    }
}

#[test]
fn clicking_next_skips_to_the_following_track() {
    let reaction = click(Vec2::new(90, 30), "▶▶");
    assert_eq!(reaction, Reaction::Consumed(Some(Order::Next)));
}

#[test]
fn clicking_the_toggles_changes_them() {
    let reaction = click(Vec2::new(90, 30), "shuffle off");
    assert_eq!(reaction, Reaction::Consumed(Some(Order::SetShuffle(true))));

    let reaction = click(Vec2::new(90, 30), "repeat off");
    let repeated = Order::SetRepeat(RepeatSetting::RepeatPlaylist);
    assert_eq!(reaction, Reaction::Consumed(Some(repeated)));
}

#[test]
fn clicking_the_volume_meter_sets_the_volume() {
    // The click lands on the first cell of the meter, so volume drops to zero.
    let reaction = click(Vec2::new(90, 30), "▮");
    assert_eq!(reaction, Reaction::Consumed(Some(Order::SetVolume(0))));
}

#[test]
fn clicking_inert_text_does_nothing() {
    assert_eq!(click(Vec2::new(90, 30), "Juno Reactor"), Reaction::Ignored);
}

#[test]
fn a_wide_card_puts_the_cover_beside_the_metadata() {
    let screen = render(Vec2::new(96, 30), &queued(PAUSED));
    let art = find_text(&screen, "\u{2580}\u{2580}\u{2580}\u{2580}")
        .expect("the cover is drawn as half blocks");
    let title = find_text(&screen, "Solaris").expect("the title is drawn");
    // The text column sits to the right of the cover, and the transport line survives intact
    // so its buttons stay clickable.
    assert!(title.x > art.x, "title at {title:?} is not right of art at {art:?}");
    assert!(rows(&screen).join("\n").contains("shuffle off"));
}

#[test]
fn a_narrow_card_drops_the_cover_rather_than_the_text() {
    let screen = render(Vec2::new(64, 24), &queued(PAUSED));
    assert!(find_text(&screen, "\u{2580}\u{2580}\u{2580}\u{2580}").is_none());
    assert!(find_text(&screen, "Solaris").is_some());
}

#[test]
fn dashboard_frames_the_track_in_a_card() {
    let rows = rows(&render(Vec2::new(90, 28), &queued(PAUSED)));
    let screen = rows.join("\n");

    // The card is centred, and everything it advertises is on screen.
    let top = rows.iter().find(|row| row.contains('╭')).unwrap();
    assert!(top.starts_with("      ╭") && top.ends_with("╮"));
    assert!(top.contains("PAUSED"));
    assert!(screen.contains("Solaris"));
    assert!(screen.contains("Juno Reactor"));
    assert!(screen.contains("Shango"));
    assert!(screen.contains("TRACK 4"));
    assert!(screen.contains("1:02"));
    assert!(screen.contains("27%  ·  -2:43"));
    assert!(screen.contains("3:45"));
    assert!(screen.contains("repeat off"));
    assert!(screen.contains("next up"));
    assert!(screen.contains("Juno Reactor – Pistolero"));
    // Queue position is inlaid into the bottom border.
    assert!(rows.iter().any(|row| row.contains("1 / 2") && row.contains('╯')));
}

#[test]
fn saved_tracks_are_badged_in_the_border() {
    let mut deck = queued(PAUSED);
    deck.saved = true;
    let saved = rows(&render(Vec2::new(90, 28), &deck));
    let top = saved.iter().find(|row| row.contains('╭')).unwrap();
    assert!(top.contains("♥ saved"), "{top}");

    let unsaved = rows(&render(Vec2::new(90, 28), &queued(PAUSED)));
    let top = unsaved.iter().find(|row| row.contains('╭')).unwrap();
    assert!(!top.contains("saved"), "{top}");
}

#[test]
fn playing_draws_a_spectrum_above_the_title() {
    let size = Vec2::new(90, 28);
    let deck = queued(PlayerEvent::Playing(0));
    let (width, band_rows) = band_size(size, &deck).expect("the card has a band");
    let picture = draw(size, &deck, &flat_band(width, band_rows * 8));
    let rows = rows(&screen(size, &picture));
    let title = rows.iter().position(|row| row.contains("Solaris")).unwrap();
    let bars =
        rows[..title].iter().filter(|row| row.contains('█') || row.contains('▄')).count();
    assert!(bars > 1, "expected a multi row spectrum, got:\n{rows:#?}");
}

#[test]
fn small_terminals_drop_the_card_but_keep_the_essentials() {
    let rows = rows(&render(Vec2::new(34, 12), &queued(PAUSED)));
    let screen = rows.join("\n");

    assert!(!screen.contains('╭'), "no room for a card:\n{screen}");
    assert!(screen.contains("Solaris"));
    assert!(screen.contains("Juno Reactor"));
    assert!(screen.contains("1:02"));
    // Every row has to stay inside the terminal.
    assert!(rows.iter().all(|row| row.width() <= 34));
}

#[test]
fn nothing_playing_explains_what_to_do() {
    let screen = rows(&render(Vec2::new(80, 20), &nothing_queued())).join("\n");
    assert!(screen.contains("Nothing playing yet"));
    assert!(screen.contains("IDLE"));
    assert!(!screen.contains("PAUSED"));
}

#[test]
fn nothing_is_drawn_in_no_room() {
    let picture = draw(Vec2::new(0, 10), &queued(PAUSED), &flat_band(61, 4));
    assert!(picture.sheet.prints.is_empty() && picture.hitboxes.is_empty());
    assert!(picture.art.is_none() && picture.wanted.is_none());
}

#[test]
fn every_size_of_terminal_can_be_drawn_on() {
    for x in 0..100 {
        for y in 0..35 {
            let size = Vec2::new(x, y);
            for deck in [queued(PAUSED), nothing_queued()] {
                let picture = draw(size, &deck, &flat_band(61, 4));
                for hitbox in &picture.hitboxes {
                    assert!(hitbox.row < y && hitbox.start + hitbox.width <= x);
                }
            }
        }
    }
}

#[test]
fn a_cover_is_fetched_where_there_is_room_for_it() {
    let mut deck = queued(PAUSED);
    deck.art = Art::Missing;
    let wide = draw(Vec2::new(96, 30), &deck, &flat_band(61, 4));
    assert_eq!(wide.wanted.as_deref(), Some("https://example.invalid/Solaris.jpg"));
    assert!(wide.art.is_none());
    let narrow = draw(Vec2::new(64, 24), &deck, &flat_band(61, 4));
    assert!(narrow.wanted.is_none());
    deck.art = Art::Off;
    assert!(draw(Vec2::new(96, 30), &deck, &flat_band(61, 4)).wanted.is_none());
}

#[test]
fn the_cover_leaves_the_text_its_room() {
    let picture = draw(Vec2::new(96, 30), &queued(PAUSED), &flat_band(61, 4));
    let art = picture.art.expect("the cover is drawn");
    assert_eq!(art.url, "https://example.invalid/Solaris.jpg");
    assert_eq!(art.size.x, 2 * art.size.y);
    let card_width = 78;
    assert!(card_width - 9 - art.size.x >= ART_MIN_TEXT_WIDTH);
}

#[test]
fn the_band_has_as_many_columns_as_the_card_gives_it() {
    let mut deck = queued(PAUSED);
    deck.art = Art::Off;
    assert_eq!(band_size(Vec2::new(90, 28), &deck), Some((61, 3)));
    // The flat layout has none.
    assert_eq!(band_size(Vec2::new(34, 12), &deck), None);
    assert_eq!(band_size(Vec2::new(90, 28), &nothing_queued()), None);
}

#[test]
fn clicking_the_bar_seeks_to_the_clicked_fraction() {
    let deck = queued(PAUSED);
    let size = Vec2::new(34, 12);
    let picture = draw(size, &deck, &flat_band(61, 4));
    let bar = picture.hitboxes[0];
    assert_eq!((bar.start, bar.width), (1, 32));
    let seek = |x: usize| {
        on_event(&picture.hitboxes, mouse(Vec2::new(x, bar.row), Mouse::LeftPress), &deck)
    };
    assert_eq!(seek(1), Reaction::Consumed(Some(Order::Seek(0))));
    assert_eq!(seek(32), Reaction::Consumed(Some(Order::Seek(225_000))));
    // 10 of 31 parts of 225 seconds.
    assert_eq!(seek(11), Reaction::Consumed(Some(Order::Seek(72_581))));
    assert_eq!(seek(0), Reaction::Ignored);
    assert_eq!(seek(33), Reaction::Ignored);
}

#[test]
fn the_previous_button_restarts_a_track_that_is_under_way() {
    let size = Vec2::new(90, 30);
    assert_eq!(click(size, "◀◀"), Reaction::Consumed(Some(Order::Seek(0))));
    let mut deck = queued(PAUSED);
    deck.progress_ms = 4_999;
    let reaction = touch(size, "◀◀", Mouse::LeftPress, &deck);
    assert_eq!(reaction, Reaction::Consumed(Some(Order::Previous)));
    deck.progress_ms = 5_000;
    let reaction = touch(size, "◀◀", Mouse::LeftPress, &deck);
    assert_eq!(reaction, Reaction::Consumed(Some(Order::Seek(0))));
    assert_eq!(click(size, "▶  Shift"), Reaction::Consumed(Some(Order::TogglePlayback)));
}

#[test]
fn the_wheel_nudges_what_it_is_over() {
    let size = Vec2::new(90, 30);
    let mut deck = queued(PAUSED);
    deck.volume = 65_000;
    let over = |label: &str, event: Mouse, deck: &Deck| touch(size, label, event, deck);
    assert_eq!(
        over("▮", Mouse::WheelUp, &deck),
        Reaction::Consumed(Some(Order::SetVolume(65_535)))
    );
    assert_eq!(
        over("▮", Mouse::WheelDown, &deck),
        Reaction::Consumed(Some(Order::SetVolume(64_345)))
    );
    assert_eq!(
        over("repeat off", Mouse::WheelUp, &deck),
        Reaction::Consumed(Some(Order::SeekRelative(-5_000)))
    );
    assert_eq!(
        over("repeat off", Mouse::WheelDown, &deck),
        Reaction::Consumed(Some(Order::SeekRelative(5_000)))
    );
    assert_eq!(over("repeat off", Mouse::Other, &deck), Reaction::Ignored);
}

#[test]
fn the_repeat_control_goes_round() {
    let size = Vec2::new(90, 30);
    let mut deck = queued(PAUSED);
    deck.repeat = RepeatSetting::RepeatPlaylist;
    assert_eq!(
        touch(size, "repeat all", Mouse::LeftPress, &deck),
        Reaction::Consumed(Some(Order::SetRepeat(RepeatSetting::RepeatTrack)))
    );
    deck.repeat = RepeatSetting::RepeatTrack;
    assert_eq!(
        touch(size, "repeat one", Mouse::LeftPress, &deck),
        Reaction::Consumed(Some(Order::SetRepeat(RepeatSetting::Off)))
    );
}

#[test]
fn a_slash_opens_the_search() {
    let deck = queued(PAUSED);
    assert_eq!(on_event(&vec![], Input::Char('/'), &deck), Reaction::OpenSearch);
    assert_eq!(on_event(&vec![], Input::Char('x'), &deck), Reaction::Ignored);
    assert_eq!(on_event(&vec![], Input::Esc, &deck), Reaction::Ignored);
    let outside =
        Input::Mouse { offset: Vec2::new(5, 5), position: Vec2::new(4, 9), event: Mouse::LeftPress };
    assert_eq!(on_event(&vec![], outside, &deck), Reaction::Ignored);
}

#[test]
fn commands_are_about_the_current_item() {
    let song = queued(PAUSED).current;
    let episode = Some(Playable::Episode(Episode {
        id: "talk".to_string(),
        uri: "spotify:episode:talk".to_string(),
        name: "Talk".to_string(),
        duration: 1000,
        release_date: "2024-01-01".to_string(),
        cover_url: None,
    }));
    let run = |task: Task| Response::Consumed(Some(task));
    for (command, task) in [
        (Command::Queue, Task::Enqueue),
        (Command::PlayNext, Task::PlayNext),
        (Command::Save, Task::Save),
        (Command::Delete, Task::Unsave),
        (Command::Share, Task::Share),
        (Command::Open, Task::Open),
        (Command::Goto(GotoMode::Album), Task::GotoAlbum),
        (Command::Goto(GotoMode::Artist), Task::GotoArtist),
        (Command::ShowRecommendations, Task::ShowRecommendations),
    ] {
        assert_eq!(on_command(command, &song), run(task));
        assert_eq!(on_command(command, &episode), run(task));
        assert_eq!(on_command(command, &None), Response::Consumed(None));
    }
    assert_eq!(on_command(Command::Add, &song), run(Task::ShowAddDialog));
    assert_eq!(on_command(Command::Add, &episode), Response::Consumed(None));
    assert_eq!(on_command(Command::Play, &None), run(Task::TogglePlayback));
    assert_eq!(on_command(Command::SaveQueue, &None), run(Task::ShowSaveQueueDialog));
    for command in [Command::Move, Command::Shift, Command::Jump, Command::Insert, Command::Sort] {
        assert_eq!(on_command(command, &song), Response::Consumed(None));
    }
    assert_eq!(on_command(Command::Other, &song), Response::Ignored);
}

#[test]
fn an_item_describes_itself() {
    let lines = metadata(&track("Solaris", "Juno Reactor", "Shango"));
    assert_eq!(lines.title, "Solaris");
    assert_eq!(lines.byline, "Juno Reactor");
    assert_eq!(lines.album, "Shango");
    assert_eq!(lines.kind, "TRACK 4");
    assert_eq!(queue_position(Some(4), 9).as_deref(), Some("5 / 9"));
    assert_eq!(queue_position(None, 9), None);
    assert_eq!(next_up(&None), None);
    assert_eq!(status(PAUSED, false).1, "PAUSED");
}

#[test]
fn what_is_found_is_shown() {
    assert_eq!(shown(Task::Open, true), Shown::View);
    assert_eq!(shown(Task::Open, false), Shown::Menu);
    for task in [Task::GotoAlbum, Task::GotoArtist, Task::ShowRecommendations] {
        assert_eq!(shown(task, true), Shown::View);
        assert_eq!(shown(task, false), Shown::Nothing);
        assert!(!acts(task, true) && !acts(task, false));
    }
    for found in [true, false] {
        assert_eq!(shown(Task::ShowAddDialog, found), Shown::AddDialog);
        assert_eq!(shown(Task::ShowSaveQueueDialog, found), Shown::SaveDialog);
        for task in
            [Task::TogglePlayback, Task::Enqueue, Task::PlayNext, Task::Save, Task::Unsave]
        {
            assert_eq!(shown(task, found), Shown::Nothing);
            assert!(acts(task, found));
        }
        // Without an address there is nothing to share.
        assert_eq!(shown(Task::Share, found), Shown::Nothing);
        assert_eq!(acts(Task::Share, found), found);
    }
}

#[test]
fn the_first_artist_is_the_one_gone_to() {
    assert_eq!(first_artist(Some(vec!["a", "b"])), Some("a"));
    assert_eq!(first_artist::<&str>(Some(vec![])), None);
    assert_eq!(first_artist::<&str>(None), None);
}
