use ncspot::canvas::{Region, Vec2};
use ncspot::model::Track;
use ncspot::search_cache::normalize;
use ncspot::table::Table;
use ncspot::text::{contains, decimal, join, ms_to_hms, starts_with, trim};
use ncspot::ui::painter::Hitbox;
use ncspot::ui::blocks::Control;

#[test]
fn times_are_written_as_on_a_clock() {
    assert_eq!(ms_to_hms(0), "0:00");
    assert_eq!(ms_to_hms(62_999), "1:02");
    assert_eq!(ms_to_hms(3_600_000), "1:00:00");
    assert_eq!(ms_to_hms(3_723_000), "1:02:03");
    assert_eq!(decimal(0), "0");
    assert_eq!(decimal(u128::MAX), u128::MAX.to_string());
}

#[test]
fn texts_are_searched_by_their_characters() {
    for (text, part) in [("abc", ""), ("abc", "bc"), ("abc", "abcd"), ("äöü", "ö"), ("", "x")] {
        assert_eq!(contains(text, part), text.contains(part));
        assert_eq!(starts_with(text, part), text.starts_with(part));
    }
    for text in ["  a b ", "\u{2003}x\n", "", "   ", "x"] {
        assert_eq!(trim(text), text.trim());
    }
    assert_eq!(join(&vec!["a".to_string(), "b".to_string()], ", "), "a, b");
    assert_eq!(join(&vec![], ", "), "");
}

#[test]
fn a_table_holds_each_key_once() {
    let mut table: Table<u32> = Table::new();
    table.insert("a".to_string(), 1);
    table.insert("b".to_string(), 2);
    table.insert("a".to_string(), 3);
    assert_eq!(table.len(), 2);
    assert_eq!(table.get("a"), Some(&3));
    assert!(table.contains_key("b") && !table.contains_key("c"));
    assert_eq!(table.remove("a"), Some(3));
    assert_eq!(table.remove("a"), None);
    assert_eq!((table.len(), table.key_at(0), *table.value_at(0)), (1, "b", 2));
}

#[test]
fn a_region_is_cut_to_the_screen() {
    let region = Region::new(5, 10);
    assert_eq!(region.visible(20), Some(Region::new(5, 10)));
    assert_eq!(region.visible(8), Some(Region::new(5, 3)));
    assert_eq!(region.visible(5), None);
    assert_eq!(region.center(4), 8);
    assert_eq!(region.center(40), 5);
}

#[test]
fn a_hitbox_knows_where_it_was_hit() {
    let hitbox = Hitbox { row: 3, start: 10, width: 5, control: Control::Volume };
    assert!(hitbox.contains(Vec2::new(10, 3)) && hitbox.contains(Vec2::new(14, 3)));
    assert!(!hitbox.contains(Vec2::new(15, 3)) && !hitbox.contains(Vec2::new(10, 4)));
    assert_eq!(hitbox.fraction(Vec2::new(12, 3)), (2, 4));
    let narrow = Hitbox { row: 0, start: 0, width: 1, control: Control::Seek };
    assert_eq!(narrow.fraction(Vec2::new(0, 0)), (0, 1));
}

#[test]
fn a_track_can_be_copied() {
    let track = Track {
        id: None,
        uri: "spotify:local:x".to_string(),
        title: "x".to_string(),
        track_number: 1,
        disc_number: 2,
        duration: 3,
        artists: vec!["a".to_string(), "b".to_string()],
        artist_ids: vec![],
        album: Some("c".to_string()),
        album_id: None,
        album_artists: vec![],
        cover_url: None,
        url: "u".to_string(),
        added_at: Some(-5),
        list_index: 6,
        is_local: true,
        is_playable: None,
    };
    assert_eq!(format!("{:?}", track.clone()), format!("{track:?}"));
}

#[test]
fn white_space_is_what_unicode_lists() {
    let listed = "\t\n\u{b}\u{c}\r \u{85}\u{a0}\u{1680}\u{2000}\u{2001}\u{2002}\u{2003}\u{2004}\
                  \u{2005}\u{2006}\u{2007}\u{2008}\u{2009}\u{200a}\u{2028}\u{2029}\u{202f}\u{205f}\u{3000}";
    assert_eq!(listed.chars().count(), 25);
    for code in 0..=0x10ffff {
        if let Some(c) = char::from_u32(code) {
            let trimmed = trim(&c.to_string()).is_empty();
            assert_eq!(trimmed, listed.contains(c), "{code:x}");
        }
    }
}

#[test]
fn capitals_of_ascii_become_small_letters() {
    for code in 0x21u8..0x7f {
        let c = code as char;
        let lower = if c.is_ascii_uppercase() { (code + 32) as char } else { c };
        assert_eq!(normalize(&c.to_string()), lower.to_string());
    }
}
