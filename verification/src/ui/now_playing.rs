//! A responsive dashboard for the item currently playing.

use vstd::prelude::*;

use crate::canvas;
use crate::canvas::{Ink, Region, Vec2};
#[allow(unused_imports)]
use crate::canvas::{Effect, Mark};
use crate::model;
use crate::model::{Playable, PlayerEvent, RepeatSetting};
#[allow(unused_imports)]
use crate::model::PlayableModel;
use crate::text;
use crate::ui::blocks;
use crate::ui::blocks::{Block, BlockKind, Control, Segment, Segments, Stack};
#[allow(unused_imports)]
use crate::ui::blocks::{BlockModel, KindModel, SegmentModel};
use crate::ui::meters;
use crate::ui::painter;
use crate::ui::painter::{Frame, Hitbox, Painter, Rect};
#[allow(unused_imports)]
use crate::ui::painter::Scene;
use crate::ui::spectrum::Band;

verus! {

/// The widest a card gets.
pub const CARD_MAX_WIDTH: usize = 78;
/// The tallest the band on it gets.
pub const SPECTRUM_MAX_HEIGHT: usize = 3;
/// The cells of the volume meter.
pub const VOLUME_METER_CELLS: usize = 8;
/// Cover art sizing, in cells: never taller than this, never shown below it, and never at
/// the cost of leaving the text column narrower than it needs.
pub const ART_MAX_HEIGHT: usize = 14;
pub const ART_MIN_HEIGHT: usize = 5;
/// The text column never gets narrower than the transport line, so the controls stay whole
/// and clickable however big the cover is.
pub const ART_MIN_TEXT_WIDTH: usize = 48;
/// Smallest terminal that still gets the full card; anything smaller is laid out flat.
pub const CARD_MIN_WIDTH: usize = 40;
pub const CARD_MIN_HEIGHT: usize = 15;

/// What is known of the cover of the current item.
#[derive(Clone, Copy, PartialEq, Eq, Structural, Debug)]
pub enum Art {
    /// Covers are not drawn at all.
    Off,
    /// The cover is not there yet.
    Missing,
    /// The cover can be drawn.
    Ready,
}

/// What the card shows of the player and of the queue.
pub struct Deck {
    pub status: PlayerEvent,
    /// How far into the current item the player is, in milliseconds.
    pub progress_ms: u128,
    /// Out of `u16::MAX`.
    pub volume: u16,
    pub repeat: RepeatSetting,
    pub shuffle: bool,
    pub current: Option<Playable>,
    /// Where the current item is in the queue, counted from zero.
    pub position: Option<usize>,
    pub queue_len: usize,
    /// The item queued after the current one.
    pub next: Option<Playable>,
    /// Whether the current item is in the saved library.
    pub saved: bool,
    /// Whether the terminal has the glyphs of a patched font.
    pub nerdfont: bool,
    pub art: Art,
}

/// A [`Deck`] as the contracts speak of it.
pub struct DeckModel {
    pub status: PlayerEvent,
    pub progress_ms: nat,
    pub volume: nat,
    pub repeat: RepeatSetting,
    pub shuffle: bool,
    pub current: Option<PlayableModel>,
    pub position: Option<usize>,
    pub queue_len: nat,
    pub next: Option<PlayableModel>,
    pub saved: bool,
    pub nerdfont: bool,
    pub art: Art,
}

/// The item of a deck, where it has one.
pub open spec fn item(playable: Option<Playable>) -> Option<PlayableModel> {
    match playable {
        Some(playable) => Some(playable@),
        None => None,
    }
}

impl View for Deck {
    type V = DeckModel;

    open spec fn view(&self) -> DeckModel {
        DeckModel {
            status: self.status,
            progress_ms: self.progress_ms as nat,
            volume: self.volume as nat,
            repeat: self.repeat,
            shuffle: self.shuffle,
            current: item(self.current),
            position: self.position,
            queue_len: self.queue_len as nat,
            next: item(self.next),
            saved: self.saved,
            nerdfont: self.nerdfont,
            art: self.art,
        }
    }
}

// ---------------------------------------------------------------------------
// What the card says.
// ---------------------------------------------------------------------------

/// The four lines that describe an item.
pub struct Metadata {
    pub title: String,
    pub byline: String,
    pub album: String,
    pub kind: String,
}

/// The title of an item.
pub open spec fn title_of(playable: PlayableModel) -> Seq<char> {
    match playable {
        PlayableModel::Track(track) => track.title,
        PlayableModel::Episode(episode) => episode.name,
    }
}

/// Who an item is by.
pub open spec fn byline_of(playable: PlayableModel) -> Seq<char> {
    match playable {
        PlayableModel::Track(track) => text::joined(track.artists, ", "@),
        PlayableModel::Episode(_) => "PODCAST EPISODE"@,
    }
}

/// What an item is from.
pub open spec fn album_of(playable: PlayableModel) -> Seq<char> {
    match playable {
        PlayableModel::Track(track) => match track.album {
            Some(album) => album,
            None => Seq::empty(),
        },
        PlayableModel::Episode(episode) => episode.release_date,
    }
}

/// Which one of what it is from an item is. The disc is only named past the first.
pub open spec fn kind_of(playable: PlayableModel) -> Seq<char> {
    match playable {
        PlayableModel::Track(track) => if track.disc_number > 1 {
            "DISC "@ + text::digits(track.disc_number as nat) + "  \u{2022}  TRACK "@
                + text::digits(track.track_number as nat)
        } else {
            "TRACK "@ + text::digits(track.track_number as nat)
        },
        PlayableModel::Episode(_) => "EPISODE"@,
    }
}

/// Describe an item.
pub fn metadata(playable: &Playable) -> (lines: Metadata)
    ensures
        lines.title@ == title_of(playable@),
        lines.byline@ == byline_of(playable@),
        lines.album@ == album_of(playable@),
        lines.kind@ == kind_of(playable@),
{
    match playable {
        Playable::Track(track) => {
            let mut kind = String::new();
            if track.disc_number > 1 {
                kind.append("DISC ");
                kind.append(&text::decimal(track.disc_number as u128));
                kind.append("  \u{2022}  TRACK ");
            } else {
                kind.append("TRACK ");
            }
            kind.append(&text::decimal(track.track_number as u128));
            assert(kind@ =~= kind_of(playable@));
            Metadata {
                title: track.title.clone(),
                byline: text::join(&track.artists, ", "),
                album: match &track.album {
                    Some(album) => album.clone(),
                    None => String::new(),
                },
                kind,
            }
        },
        Playable::Episode(episode) => Metadata {
            title: episode.name.clone(),
            byline: "PODCAST EPISODE".to_owned(),
            album: episode.release_date.clone(),
            kind: "EPISODE".to_owned(),
        },
    }
}

/// The icon of what the player is doing.
pub open spec fn status_icon(status: PlayerEvent, nerdfont: bool) -> Seq<char> {
    match status {
        PlayerEvent::Playing(_) => if nerdfont {
            "\u{f040a}"@
        } else {
            "\u{25b6}"@
        },
        PlayerEvent::Paused(_) => if nerdfont {
            "\u{f03e4}"@
        } else {
            "\u{2161}"@
        },
        _ => "\u{25a0}"@,
    }
}

/// The word for what the player is doing.
pub open spec fn status_word(status: PlayerEvent) -> Seq<char> {
    match status {
        PlayerEvent::Playing(_) => "PLAYING"@,
        PlayerEvent::Paused(_) => "PAUSED"@,
        _ => "STOPPED"@,
    }
}

/// What the player is doing, as an icon and as a word.
pub fn status(event: PlayerEvent, nerdfont: bool) -> (shown: (&'static str, &'static str))
    ensures
        shown.0@ == status_icon(event, nerdfont),
        shown.1@ == status_word(event),
        shown.1@ == "PLAYING"@ <==> event is Playing,
        shown.1@ == "PAUSED"@ <==> event is Paused,
        shown.1@ == "STOPPED"@ <==> !(event is Playing) && !(event is Paused),
{
    proof {
        lemma_state_words();
    }
    match event {
        PlayerEvent::Playing(_) => if nerdfont {
            ("\u{f040a}", "PLAYING")
        } else {
            ("\u{25b6}", "PLAYING")
        },
        PlayerEvent::Paused(_) => if nerdfont {
            ("\u{f03e4}", "PAUSED")
        } else {
            ("\u{2161}", "PAUSED")
        },
        _ => ("\u{25a0}", "STOPPED"),
    }
}

/// An item in one line.
pub open spec fn preview_of(playable: PlayableModel) -> Seq<char> {
    if byline_of(playable).len() == 0 {
        title_of(playable)
    } else {
        byline_of(playable) + " \u{2013} "@ + title_of(playable)
    }
}

/// The item queued after the current one, formatted for a one line preview.
pub fn next_up(next: &Option<Playable>) -> (preview: Option<String>)
    ensures
        model::optional_text(preview) == match *next {
            Some(next) => Some(preview_of(next@)),
            None => None,
        },
{
    match next {
        Some(next) => {
            let lines = metadata(next);
            if lines.byline.as_str().is_empty() {
                Some(lines.title)
            } else {
                let mut preview = lines.byline;
                preview.append(" \u{2013} ");
                preview.append(&lines.title);
                Some(preview)
            }
        },
        None => None,
    }
}

/// `4 / 27`, where there is more than one item.
pub open spec fn position_label(position: Option<usize>, queue_len: nat) -> Option<Seq<char>> {
    match position {
        Some(position) if queue_len > 1 => Some(
            text::digits((position + 1) as nat) + " / "@ + text::digits(queue_len),
        ),
        _ => None,
    }
}

/// Position of the current item in the queue, as a `4 / 27` style label.
pub fn queue_position(position: Option<usize>, queue_len: usize) -> (label: Option<String>)
    ensures
        model::optional_text(label) == position_label(position, queue_len as nat),
{
    match position {
        Some(position) if queue_len > 1 => {
            let mut label = text::decimal(position as u128 + 1);
            label.append(" / ");
            label.append(&text::decimal(queue_len as u128));
            Some(label)
        },
        _ => None,
    }
}

// ---------------------------------------------------------------------------
// The controls.
// ---------------------------------------------------------------------------

/// The label of the repeat control.
pub open spec fn repeat_label(repeat: RepeatSetting, nerdfont: bool) -> Seq<char> {
    (if !nerdfont {
        ""@
    } else if repeat == RepeatSetting::RepeatTrack {
        "\u{f0458} "@
    } else {
        "\u{f0456} "@
    }) + match repeat {
        RepeatSetting::Off => "repeat off"@,
        RepeatSetting::RepeatPlaylist => "repeat all"@,
        RepeatSetting::RepeatTrack => "repeat one"@,
    }
}

/// The label of the shuffle control.
pub open spec fn shuffle_label(shuffle: bool, nerdfont: bool) -> Seq<char> {
    (if nerdfont {
        "\u{f049d} "@
    } else {
        ""@
    }) + if shuffle {
        "shuffle on"@
    } else {
        "shuffle off"@
    }
}

/// The colour of a toggle.
pub open spec fn toggle_ink(on: bool) -> Ink {
    if on {
        Ink::Playing
    } else {
        Ink::Secondary
    }
}

/// Repeat, shuffle and volume.
pub open spec fn transport(deck: DeckModel) -> Seq<SegmentModel> {
    let separator = blocks::inert("   \u{2022}   "@, Ink::Secondary);
    let percent = meters::nearest_percent(deck.volume);
    seq![
        blocks::wired(
            repeat_label(deck.repeat, deck.nerdfont),
            toggle_ink(deck.repeat != RepeatSetting::Off),
            Control::Repeat,
        ),
        separator,
        blocks::wired(
            shuffle_label(deck.shuffle, deck.nerdfont),
            toggle_ink(deck.shuffle),
            Control::Shuffle,
        ),
        separator,
        blocks::inert(
            if deck.nerdfont {
                "\u{f057e} "@
            } else {
                ""@
            },
            Ink::Secondary,
        ),
        blocks::wired(
            meters::meter(percent, VOLUME_METER_CELLS as nat),
            Ink::Accent,
            Control::Volume,
        ),
        blocks::inert(" "@ + text::digits(percent) + "%"@, Ink::Secondary),
    ]
}

/// Repeat / shuffle / volume, with active toggles highlighted. Each one is a click target:
/// the labels are the controls, not just a readout.
pub fn transport_segments(deck: &Deck) -> (segments: Segments)
    ensures
        segments@ == transport(deck@),
{
    let mut repeat = String::new();
    repeat.append(
        match (deck.nerdfont, deck.repeat) {
            (false, _) => "",
            (true, RepeatSetting::RepeatTrack) => "\u{f0458} ",
            (true, _) => "\u{f0456} ",
        },
    );
    let repeat_ink = match deck.repeat {
        RepeatSetting::Off => {
            repeat.append("repeat off");
            Ink::Secondary
        },
        RepeatSetting::RepeatPlaylist => {
            repeat.append("repeat all");
            Ink::Playing
        },
        RepeatSetting::RepeatTrack => {
            repeat.append("repeat one");
            Ink::Playing
        },
    };
    assert(repeat@ =~= repeat_label(deck.repeat, deck.nerdfont));
    let mut shuffle = String::new();
    shuffle.append(
        if deck.nerdfont {
            "\u{f049d} "
        } else {
            ""
        },
    );
    let shuffle_ink = if deck.shuffle {
        shuffle.append("shuffle on");
        Ink::Playing
    } else {
        shuffle.append("shuffle off");
        Ink::Secondary
    };
    assert(shuffle@ =~= shuffle_label(deck.shuffle, deck.nerdfont));
    let percent = meters::volume_percent(deck.volume);
    let mut readout = String::new();
    readout.append(" ");
    readout.append(&text::decimal(percent as u128));
    readout.append("%");
    assert(readout@ =~= " "@ + text::digits(percent as nat) + "%"@);
    let icon = if deck.nerdfont {
        "\u{f057e} "
    } else {
        ""
    };

    let mut segments = Segments::new();
    segments.push(Segment::button(repeat, repeat_ink, Control::Repeat));
    segments.push(Segment::new("   \u{2022}   ".to_owned(), Ink::Secondary));
    segments.push(Segment::button(shuffle, shuffle_ink, Control::Shuffle));
    segments.push(Segment::new("   \u{2022}   ".to_owned(), Ink::Secondary));
    segments.push(Segment::new(icon.to_owned(), Ink::Secondary));
    segments.push(
        Segment::button(
            meters::volume_meter(percent, VOLUME_METER_CELLS),
            Ink::Accent,
            Control::Volume,
        ),
    );
    segments.push(Segment::new(readout, Ink::Secondary));
    assert(segments@ =~= transport(deck@));
    segments
}

/// The label of a button: its glyph, and the key that does the same where keys are shown.
pub open spec fn button_label(glyph: Seq<char>, key: Seq<char>, keys: bool) -> Seq<char> {
    if keys {
        "[ "@ + glyph + "  "@ + key + " ]"@
    } else {
        "[ "@ + glyph + " ]"@
    }
}

fn label_of(glyph: &str, key: &str, keys: bool) -> (label: String)
    ensures
        label@ == button_label(glyph@, key@, keys),
{
    let mut label = String::new();
    label.append("[ ");
    label.append(glyph);
    if keys {
        label.append("  ");
        label.append(key);
    }
    label.append(" ]");
    assert(label@ =~= button_label(glyph@, key@, keys));
    label
}

/// The glyph of the middle button.
pub open spec fn play_glyph(playing: bool, nerdfont: bool) -> Seq<char> {
    if playing {
        if nerdfont {
            "\u{f03e4}"@
        } else {
            "\u{275a}\u{275a}"@
        }
    } else {
        if nerdfont {
            "\u{f040a}"@
        } else {
            "\u{25b6}"@
        }
    }
}

/// Back, play or pause, and on.
pub open spec fn buttons(playing: bool, nerdfont: bool, keys: bool) -> Seq<SegmentModel> {
    let gap = blocks::inert("  "@, Ink::Secondary);
    let previous = if nerdfont {
        "\u{f04ab}"@
    } else {
        "\u{25c0}\u{25c0}"@
    };
    let next = if nerdfont {
        "\u{f04ad}"@
    } else {
        "\u{25b6}\u{25b6}"@
    };
    seq![
        blocks::wired(button_label(previous, "<"@, keys), Ink::Accent, Control::Previous),
        gap,
        blocks::wired(
            button_label(play_glyph(playing, nerdfont), "Shift+P"@, keys),
            Ink::Playing,
            Control::PlayPause,
        ),
        gap,
        blocks::wired(button_label(next, ">"@, keys), Ink::Accent, Control::Next),
    ]
}

/// Clickable transport buttons, each labelled with the key that does the same thing, so the
/// keyboard shortcuts are discoverable from the card itself.
pub fn button_segments(playing: bool, nerdfont: bool, keys: bool) -> (segments: Segments)
    ensures
        segments@ == buttons(playing, nerdfont, keys),
{
    let play = if playing {
        if nerdfont {
            "\u{f03e4}"
        } else {
            "\u{275a}\u{275a}"
        }
    } else {
        if nerdfont {
            "\u{f040a}"
        } else {
            "\u{25b6}"
        }
    };
    let previous = if nerdfont {
        "\u{f04ab}"
    } else {
        "\u{25c0}\u{25c0}"
    };
    let next = if nerdfont {
        "\u{f04ad}"
    } else {
        "\u{25b6}\u{25b6}"
    };
    let mut segments = Segments::new();
    segments.push(Segment::button(label_of(previous, "<", keys), Ink::Accent, Control::Previous));
    segments.push(Segment::new("  ".to_owned(), Ink::Secondary));
    segments.push(
        Segment::button(label_of(play, "Shift+P", keys), Ink::Playing, Control::PlayPause),
    );
    segments.push(Segment::new("  ".to_owned(), Ink::Secondary));
    segments.push(Segment::button(label_of(next, ">", keys), Ink::Accent, Control::Next));
    assert(segments@ =~= buttons(playing, nerdfont, keys));
    segments
}

// ---------------------------------------------------------------------------
// The blocks.
// ---------------------------------------------------------------------------

/// The top of a stack: the band on the card, the state of the player without one.
pub open spec fn head_block(deck: DeckModel, card: bool) -> BlockModel {
    if card {
        blocks::block(KindModel::Spectrum(SPECTRUM_MAX_HEIGHT), 5)
    } else {
        blocks::block(
            KindModel::Segments(
                seq![
                    blocks::inert(
                        status_icon(deck.status, deck.nerdfont) + "  "@,
                        Ink::Playing,
                    ),
                    blocks::inert(status_word(deck.status), Ink::Secondary),
                ],
            ),
            5,
        )
    }
}

/// The line about the next item, where there is one.
pub open spec fn next_blocks(next: Option<PlayableModel>) -> Seq<BlockModel> {
    match next {
        Some(next) => seq![
            blocks::block(
                KindModel::Segments(
                    seq![
                        blocks::inert("next up  "@, Ink::Accent),
                        blocks::inert(preview_of(next), Ink::Secondary),
                    ],
                ),
                7,
            ),
        ],
        None => Seq::empty(),
    }
}

/// The stacked contents of the view, in the order in which they are drawn.
pub open spec fn content(deck: DeckModel, playable: PlayableModel, card: bool) -> Seq<BlockModel> {
    seq![
        head_block(deck, card),
        blocks::blank_block(),
        blocks::title_block(title_of(playable)),
        blocks::line_block(byline_of(playable), Ink::Primary, 1),
    ] + (if album_of(playable).len() > 0 {
        seq![blocks::line_block(album_of(playable), Ink::Secondary, 4)]
    } else {
        Seq::empty()
    }) + (if card {
        seq![blocks::blank_block(), blocks::line_block(kind_of(playable), Ink::Secondary, 6)]
    } else {
        Seq::empty()
    }) + seq![
        blocks::blank_block(),
        blocks::block(KindModel::Progress, 0),
        blocks::block(KindModel::Times, 2),
        blocks::blank_block(),
    ] + (if card {
        seq![
            blocks::block(
                KindModel::Segments(buttons(deck.status is Playing, deck.nerdfont, true)),
                0,
            ),
            blocks::blank_block(),
            blocks::block(KindModel::Rule, 8),
            blocks::block(KindModel::Segments(transport(deck)), 3),
        ] + next_blocks(deck.next)
    } else {
        seq![
            blocks::block(
                KindModel::Segments(buttons(deck.status is Playing, deck.nerdfont, false)),
                2,
            ),
        ]
    })
}

/// Two runs on one line.
fn pair(first: Segment, second: Segment) -> (segments: Segments)
    ensures
        segments@ == seq![first@, second@],
{
    let mut segments = Segments::new();
    segments.push(first);
    segments.push(second);
    assert(segments@ =~= seq![first@, second@]);
    segments
}

/// The stacked contents of the view. `card` selects the full dashboard layout; without it
/// the flat layout for small terminals is built instead.
#[verifier::rlimit(40)]
pub fn blocks_of(deck: &Deck, playable: &Playable, card: bool) -> (stack: Stack)
    ensures
        stack@ == content(deck@, playable@, card),
        blocks::total_height(stack@) <= 24,
{
    let lines = metadata(playable);
    let (icon, state) = status(deck.status, deck.nerdfont);
    let mut stack = Stack::new();
    if card {
        stack.push(Block::new(BlockKind::Spectrum(SPECTRUM_MAX_HEIGHT), 5));
    } else {
        let mut head = icon.to_owned();
        head.append("  ");
        stack.push(
            Block::new(
                BlockKind::Segments(
                    pair(
                        Segment::new(head, Ink::Playing),
                        Segment::new(state.to_owned(), Ink::Secondary),
                    ),
                ),
                5,
            ),
        );
    }
    stack.push(Block::blank());
    stack.push(Block::title(lines.title));
    stack.push(Block::line(lines.byline, Ink::Primary, 1));
    if !lines.album.as_str().is_empty() {
        stack.push(Block::line(lines.album, Ink::Secondary, 4));
    }
    if card {
        stack.push(Block::blank());
        stack.push(Block::line(lines.kind, Ink::Secondary, 6));
    }
    stack.push(Block::blank());
    stack.push(Block::new(BlockKind::Progress, 0));
    stack.push(Block::new(BlockKind::Times, 2));
    stack.push(Block::blank());
    let playing = deck.status.is_playing();
    if card {
        // The buttons carry their own key labels, so the card documents the keyboard
        // shortcuts without spending a separate hint line on them.
        stack.push(
            Block::new(BlockKind::Segments(button_segments(playing, deck.nerdfont, true)), 0),
        );
        stack.push(Block::blank());
        stack.push(Block::new(BlockKind::Rule, 8));
        stack.push(Block::new(BlockKind::Segments(transport_segments(deck)), 3));
        if let Some(next) = next_up(&deck.next) {
            stack.push(
                Block::new(
                    BlockKind::Segments(
                        pair(
                            Segment::new("next up  ".to_owned(), Ink::Accent),
                            Segment::new(next, Ink::Secondary),
                        ),
                    ),
                    7,
                ),
            );
        }
    } else {
        stack.push(
            Block::new(BlockKind::Segments(button_segments(playing, deck.nerdfont, false)), 2),
        );
    }
    assert(stack@ =~= content(deck@, playable@, card));
    stack
}

// ---------------------------------------------------------------------------
// The layout.
// ---------------------------------------------------------------------------

/// `a - b`, or nothing where that is less.
pub open spec fn less(a: int, b: int) -> int {
    if a >= b {
        a - b
    } else {
        0
    }
}

/// The columns of a card on a screen of `columns` columns.
pub open spec fn card_columns(columns: int) -> int {
    vstd::math::min(CARD_MAX_WIDTH as int, less(columns, 4))
}

/// The column of the left edge of a card.
pub open spec fn card_left(columns: int) -> int {
    less(columns, card_columns(columns)) / 2
}

/// The blocks that a card on a screen of `rows` rows has room for: two rows go to the
/// borders and two to the space inside them.
pub open spec fn card_content(stack: Seq<BlockModel>, rows: int) -> Seq<BlockModel> {
    blocks::fitted(stack, vstd::math::max(less(rows, 4), 1) as nat)
}

/// The empty rows at each end of a card with `height` rows of content, where there is room
/// for them.
pub open spec fn card_padding(height: int, rows: int) -> int {
    if height + 4 <= rows {
        1
    } else {
        0
    }
}

/// The rows of a card with `height` rows of content.
pub open spec fn card_rows(height: int, rows: int) -> int {
    vstd::math::min(rows, height + 2 * card_padding(height, rows) + 2)
}

/// The row of the top edge of a card with `height` rows of content.
pub open spec fn card_top(height: int, rows: int) -> int {
    less(rows, card_rows(height, rows)) / 2
}

/// The frame of a card with `height` rows of content, centred on the screen.
pub open spec fn card_rect(size: Vec2, height: int) -> Rect {
    let left = card_left(size.x as int);
    let top = card_top(height, size.y as int);
    Rect {
        left: left as usize,
        top: top as usize,
        right: (left + less(card_columns(size.x as int), 1)) as usize,
        bottom: (top + less(card_rows(height, size.y as int), 1)) as usize,
    }
}

/// The first row of the content of a card.
pub open spec fn content_top(size: Vec2, height: int) -> int {
    card_top(height, size.y as int) + 1 + card_padding(height, size.y as int)
}

/// The rows that a cover gets in a card of `columns` columns with `height` rows of content.
/// Terminal cells are about twice as tall as they are wide, so a square cover wants twice
/// as many columns, and those must not come out of what the text needs.
pub open spec fn art_rows(columns: int, height: int) -> int {
    vstd::math::min(
        vstd::math::min(height, ART_MAX_HEIGHT as int),
        less(columns, ART_MIN_TEXT_WIDTH + 9) / 2,
    )
}

/// Whether a card has room for a cover at all.
pub open spec fn art_fits(columns: int, height: int) -> bool {
    art_rows(columns, height) >= ART_MIN_HEIGHT
}

/// A cover on the card.
#[derive(Debug)]
pub struct ArtSpot {
    pub url: String,
    pub offset: Vec2,
    pub size: Vec2,
}

/// An [`ArtSpot`] as the contracts speak of it.
#[verifier::ext_equal]
pub struct ArtModel {
    pub url: Seq<char>,
    pub offset: Vec2,
    pub size: Vec2,
}

impl View for ArtSpot {
    type V = ArtModel;

    open spec fn view(&self) -> ArtModel {
        ArtModel { url: self.url@, offset: self.offset, size: self.size }
    }
}

/// Which cover the card shows, and where.
pub open spec fn art_shown(
    url: Option<Seq<char>>,
    art: Art,
    size: Vec2,
    height: int,
) -> Option<ArtModel> {
    let columns = card_columns(size.x as int);
    let rows = art_rows(columns, height);
    match url {
        Some(url) if art == Art::Ready && art_fits(columns, height) => Some(
            ArtModel {
                url,
                offset: Vec2 {
                    x: (card_left(size.x as int) + 3) as usize,
                    y: (content_top(size, height) + (height - rows) / 2) as usize,
                },
                size: Vec2 { x: (rows * 2) as usize, y: rows as usize },
            },
        ),
        _ => None,
    }
}

/// Which cover is worth fetching: one that the card would show if it were there.
pub open spec fn art_wanted(
    url: Option<Seq<char>>,
    art: Art,
    size: Vec2,
    height: int,
) -> Option<Seq<char>> {
    match url {
        Some(url) if art == Art::Missing && art_fits(card_columns(size.x as int), height) => Some(
            url,
        ),
        _ => None,
    }
}

/// Where the content of a card goes. Without a cover it takes the whole card; with one it
/// takes what is to the right of it, and a rule, which would cut across the cover, is left
/// out.
pub open spec fn card_frame(size: Vec2, height: int, art: Option<ArtModel>) -> Frame {
    let rect = card_rect(size, height);
    let columns = card_columns(size.x as int);
    let left = card_left(size.x as int);
    Frame {
        top: content_top(size, height) as usize,
        height: height as usize,
        region: match art {
            Some(art) => Region {
                start: (left + 3 + art.size.x + 3) as usize,
                width: less(columns, 9 + art.size.x) as usize,
            },
            None => Region { start: (left + 3) as usize, width: less(columns, 6) as usize },
        },
        edges: match art {
            Some(_) => None,
            None => Some((rect.left, rect.right)),
        },
    }
}

/// The frame of a card and what is laid into it.
pub struct Card {
    pub rect: Rect,
    pub chip: String,
    pub badge: Option<&'static str>,
    pub footer: Option<String>,
}

/// A [`Card`] as the contracts speak of it.
#[verifier::ext_equal]
pub struct CardModel {
    pub rect: Rect,
    pub chip: Seq<char>,
    pub badge: Option<Seq<char>>,
    pub footer: Option<Seq<char>>,
}

impl View for Card {
    type V = CardModel;

    open spec fn view(&self) -> CardModel {
        CardModel {
            rect: self.rect,
            chip: self.chip@,
            badge: painter::badge_model(self.badge),
            footer: model::optional_text(self.footer),
        }
    }
}

/// Everything that is decided before the first run is printed.
pub struct Plan {
    pub stack: Stack,
    pub frame: Frame,
    pub card: Option<Card>,
    pub art: Option<ArtSpot>,
    /// A cover to fetch.
    pub wanted: Option<String>,
}

/// A [`Plan`] as the contracts speak of it.
#[verifier::ext_equal]
pub struct PlanModel {
    pub stack: Seq<BlockModel>,
    pub frame: Frame,
    pub card: Option<CardModel>,
    pub art: Option<ArtModel>,
    pub wanted: Option<Seq<char>>,
}

impl View for Plan {
    type V = PlanModel;

    open spec fn view(&self) -> PlanModel {
        PlanModel {
            stack: self.stack@,
            frame: self.frame,
            card: match self.card {
                Some(card) => Some(card@),
                None => None,
            },
            art: match self.art {
                Some(art) => Some(art@),
                None => None,
            },
            wanted: model::optional_text(self.wanted),
        }
    }
}

/// The plan of a card.
pub open spec fn card_plan(
    size: Vec2,
    stack: Seq<BlockModel>,
    chip: Seq<char>,
    badge: Option<Seq<char>>,
    footer: Option<Seq<char>>,
    url: Option<Seq<char>>,
    art: Art,
) -> PlanModel {
    let kept = card_content(stack, size.y as int);
    let height = blocks::total_height(kept) as int;
    let shown = art_shown(url, art, size, height);
    PlanModel {
        stack: kept,
        frame: card_frame(size, height, shown),
        card: Some(CardModel { rect: card_rect(size, height), chip, badge, footer }),
        art: shown,
        wanted: art_wanted(url, art, size, height),
    }
}

/// A frame without a card, for a stack that starts at `top`.
pub open spec fn flat_frame(size: Vec2, top: int) -> Frame {
    Frame {
        top: top as usize,
        height: size.y,
        region: Region { start: 1, width: less(size.x as int, 2) as usize },
        edges: None,
    }
}

/// The plan for a terminal that is too small for a card.
pub open spec fn flat_plan(size: Vec2, deck: DeckModel, playable: PlayableModel) -> PlanModel {
    let kept = blocks::fitted(content(deck, playable, false), size.y as nat);
    PlanModel {
        stack: kept,
        frame: flat_frame(size, less(size.y as int, blocks::total_height(kept) as int) / 2),
        card: None,
        art: None,
        wanted: None,
    }
}

/// The badge of a saved item.
pub open spec fn saved_badge(saved: bool, nerdfont: bool) -> Option<Seq<char>> {
    if saved {
        Some(
            if nerdfont {
                "\u{f012c} saved"@
            } else {
                "\u{2665} saved"@
            },
        )
    } else {
        None
    }
}

/// The plan of the full dashboard.
pub open spec fn dashboard_plan(size: Vec2, deck: DeckModel, playable: PlayableModel) -> PlanModel {
    card_plan(
        size,
        content(deck, playable, true),
        status_icon(deck.status, deck.nerdfont) + "  "@ + status_word(deck.status),
        saved_badge(deck.saved, deck.nerdfont),
        position_label(deck.position, deck.queue_len),
        playable.cover_url(),
        deck.art,
    )
}

/// What is shown when nothing is playing.
pub open spec fn idle_content(nerdfont: bool) -> Seq<BlockModel> {
    seq![
        blocks::line_block(
            if nerdfont {
                "\u{f075a}"@
            } else {
                "\u{25c7}"@
            },
            Ink::Accent,
            4,
        ),
        blocks::blank_block(),
        blocks::title_block("Nothing playing yet"@),
        blocks::line_block(
            "Pick a track in your library, or press Enter on a search result"@,
            Ink::Secondary,
            1,
        ),
    ]
}

/// The plan when nothing is playing.
pub open spec fn idle_plan(size: Vec2, deck: DeckModel) -> PlanModel {
    if size.x >= CARD_MIN_WIDTH && size.y >= 8 {
        card_plan(size, idle_content(deck.nerdfont), "IDLE"@, None, None, None, deck.art)
    } else {
        PlanModel {
            stack: idle_content(deck.nerdfont),
            frame: flat_frame(size, less(size.y as int, vstd::math::min(size.y as int, 4)) / 2),
            card: None,
            art: None,
            wanted: None,
        }
    }
}

/// What the view shows: the dashboard where the terminal has room for it, the flat layout
/// where it has not, and what to do where nothing is playing.
pub open spec fn plan_of(size: Vec2, deck: DeckModel) -> PlanModel {
    match deck.current {
        None => idle_plan(size, deck),
        Some(playable) => if size.x >= CARD_MIN_WIDTH && size.y >= CARD_MIN_HEIGHT {
            dashboard_plan(size, deck, playable)
        } else {
            flat_plan(size, deck, playable)
        },
    }
}

fn smaller(a: usize, b: usize) -> (least: usize)
    ensures
        least == vstd::math::min(a as int, b as int),
{
    if a <= b {
        a
    } else {
        b
    }
}

/// The cover to draw and the cells it gets, when the card can spare the width and the image
/// is already loaded; otherwise the cover to fetch, if the card would show it.
fn art_layout(
    url: Option<String>,
    art: Art,
    size: Vec2,
    height: usize,
    left: usize,
    top: usize,
    card_width: usize,
) -> (found: (Option<ArtSpot>, Option<String>))
    requires
        card_width == card_columns(size.x as int),
        left == card_left(size.x as int),
        top == content_top(size, height as int),
        left + 3 <= usize::MAX,
        top + height <= usize::MAX,
    ensures
        (match found.0 {
            Some(spot) => Some(spot@),
            None => None,
        }) == art_shown(model::optional_text(url), art, size, height as int),
        model::optional_text(found.1) == art_wanted(
            model::optional_text(url),
            art,
            size,
            height as int,
        ),
        found.0 matches Some(spot) ==> spot.size.x <= 2 * ART_MAX_HEIGHT,
{
    let by_width: usize = card_width.saturating_sub(ART_MIN_TEXT_WIDTH + 9) / 2;
    let rows = smaller(smaller(height, ART_MAX_HEIGHT), by_width);
    if rows < ART_MIN_HEIGHT {
        return (None, None);
    }
    match url {
        Some(url) => match art {
            Art::Off => (None, None),
            Art::Missing => (None, Some(url)),
            Art::Ready => {
                let spot = ArtSpot {
                    url,
                    offset: Vec2::new(left + 3, top + (height - rows) / 2),
                    size: Vec2::new(rows * 2, rows),
                };
                (Some(spot), None)
            },
        },
        None => (None, None),
    }
}

/// Plan `stack` inside a centered card, sized to whatever the terminal allows.
fn plan_card(
    size: Vec2,
    stack: Stack,
    chip: String,
    badge: Option<&'static str>,
    footer: Option<String>,
    url: Option<String>,
    art: Art,
) -> (plan: Plan)
    requires
        painter::drawable(size),
        blocks::total_height(stack@) <= 24,
    ensures
        plan@ == card_plan(
            size,
            stack@,
            chip@,
            painter::badge_model(badge),
            model::optional_text(footer),
            model::optional_text(url),
            art,
        ),
        blocks::total_height(plan.stack@) <= 24,
        plan.frame.top <= size.y + 2,
        plan.card matches Some(card) && card.rect.left <= size.x && card.rect.right <= size.x
            + CARD_MAX_WIDTH,
{
    let card_width = smaller(CARD_MAX_WIDTH, size.x.saturating_sub(4));
    let left: usize = size.x.saturating_sub(card_width) / 2;
    let right: usize = left + card_width.saturating_sub(1);

    // Reserve the borders and one padding row at each end, fit the content into what is
    // left, then size the card to the content so it stays centered.
    let room: usize = size.y.saturating_sub(4);
    let mut kept = stack;
    blocks::fit_blocks(
        &mut kept,
        if room > 1 {
            room
        } else {
            1
        },
    );
    let height = blocks::blocks_height(&kept);
    let padding: usize = if height + 4 <= size.y {
        1
    } else {
        0
    };
    let card_height = smaller(size.y, height + 2 * padding + 2);
    let top: usize = size.y.saturating_sub(card_height) / 2;
    let bottom: usize = top + card_height.saturating_sub(1);
    let first: usize = top + 1 + padding;
    let rect = Rect { left, top, right, bottom };
    assert(rect == card_rect(size, height as int));

    // With a cover loaded the card goes two column: art on the left, everything else
    // centered in what is left. Without one it stays a single column.
    let (spot, wanted) = art_layout(url, art, size, height, left, first, card_width);
    let frame = match &spot {
        Some(spot) => Frame {
            top: first,
            height,
            region: Region::new(
                left + 3 + spot.size.x + 3,
                card_width.saturating_sub(9 + spot.size.x),
            ),
            edges: None,
        },
        None => Frame {
            top: first,
            height,
            region: Region::new(left + 3, card_width.saturating_sub(6)),
            edges: Some((left, right)),
        },
    };
    Plan {
        stack: kept,
        frame,
        card: Some(Card { rect, chip, badge, footer }),
        art: spot,
        wanted,
    }
}

/// What is shown when nothing is playing.
fn idle_blocks(nerdfont: bool) -> (stack: Stack)
    ensures
        stack@ == idle_content(nerdfont),
        blocks::total_height(stack@) == 4,
{
    let glyph = if nerdfont {
        "\u{f075a}"
    } else {
        "\u{25c7}"
    };
    let mut stack = Stack::new();
    stack.push(Block::line(glyph.to_owned(), Ink::Accent, 4));
    stack.push(Block::blank());
    stack.push(Block::title("Nothing playing yet".to_owned()));
    stack.push(
        Block::line(
            "Pick a track in your library, or press Enter on a search result".to_owned(),
            Ink::Secondary,
            1,
        ),
    );
    assert(stack@ =~= idle_content(nerdfont));
    stack
}

/// The plan when nothing is playing.
fn plan_idle(size: Vec2, deck: &Deck) -> (plan: Plan)
    requires
        painter::drawable(size),
    ensures
        plan@ == idle_plan(size, deck@),
        plan_is_drawable(plan, size),
{
    let stack = idle_blocks(deck.nerdfont);
    if size.x >= CARD_MIN_WIDTH && size.y >= 8 {
        // Nothing is loaded, so the player state would only ever read "stopped".
        plan_card(size, stack, "IDLE".to_owned(), None, None, None, deck.art)
    } else {
        let top: usize = size.y.saturating_sub(smaller(size.y, 4)) / 2;
        Plan {
            stack,
            frame: Frame {
                top,
                height: size.y,
                region: Region::new(1, size.x.saturating_sub(2)),
                edges: None,
            },
            card: None,
            art: None,
            wanted: None,
        }
    }
}

/// The plan for a terminal that is too small for a card.
fn plan_flat(size: Vec2, deck: &Deck, playable: &Playable) -> (plan: Plan)
    requires
        painter::drawable(size),
    ensures
        plan@ == flat_plan(size, deck@, playable@),
        plan_is_drawable(plan, size),
{
    let mut stack = blocks_of(deck, playable, false);
    blocks::fit_blocks(&mut stack, size.y);
    let top: usize = size.y.saturating_sub(blocks::blocks_height(&stack)) / 2;
    Plan {
        stack,
        frame: Frame {
            top,
            height: size.y,
            region: Region::new(1, size.x.saturating_sub(2)),
            edges: None,
        },
        card: None,
        art: None,
        wanted: None,
    }
}

/// The plan of the full dashboard.
fn plan_dashboard(size: Vec2, deck: &Deck, playable: &Playable) -> (plan: Plan)
    requires
        painter::drawable(size),
    ensures
        plan@ == dashboard_plan(size, deck@, playable@),
        plan_is_drawable(plan, size),
{
    let badge = if deck.saved {
        Some(
            if deck.nerdfont {
                "\u{f012c} saved"
            } else {
                "\u{2665} saved"
            },
        )
    } else {
        None
    };
    let footer = queue_position(deck.position, deck.queue_len);
    let (icon, state) = status(deck.status, deck.nerdfont);
    let mut chip = icon.to_owned();
    chip.append("  ");
    chip.append(state);
    plan_card(
        size,
        blocks_of(deck, playable, true),
        chip,
        badge,
        footer,
        playable.cover_url(),
        deck.art,
    )
}

/// Whether a plan keeps to what a screen of `size` can count.
pub open spec fn plan_is_drawable(plan: Plan, size: Vec2) -> bool {
    &&& blocks::total_height(plan.stack@) <= 24
    &&& plan.frame.top <= size.y + 2
    &&& plan.card matches Some(card) ==> card.rect.left <= size.x && card.rect.right <= size.x
        + CARD_MAX_WIDTH
}

/// Decide what the view shows.
pub fn plan(size: Vec2, deck: &Deck) -> (plan: Plan)
    requires
        painter::drawable(size),
    ensures
        plan@ == plan_of(size, deck@),
        plan_is_drawable(plan, size),
{
    match &deck.current {
        None => plan_idle(size, deck),
        Some(playable) => if size.x >= CARD_MIN_WIDTH && size.y >= CARD_MIN_HEIGHT {
            plan_dashboard(size, deck, playable)
        } else {
            plan_flat(size, deck, playable)
        },
    }
}

// ---------------------------------------------------------------------------
// The picture.
// ---------------------------------------------------------------------------

/// The frame of a card, where the plan has one.
pub open spec fn plan_card_marks(card: Option<CardModel>) -> Seq<Mark> {
    match card {
        Some(card) => painter::card_marks(card.rect, card.chip, card.badge, card.footer),
        None => Seq::empty(),
    }
}

/// What the blocks of a plan have in common.
pub open spec fn plan_scene(size: Vec2, plan: PlanModel, deck: DeckModel, band: Band) -> Scene {
    painter::scene_of(
        size,
        plan.frame,
        deck.current,
        deck.progress_ms,
        band,
        deck.status is Playing,
    )
}

/// The blocks of a plan that are drawn.
pub open spec fn plan_stack(plan: PlanModel) -> Seq<BlockModel> {
    blocks::fitted(plan.stack, plan.frame.height as nat)
}

/// What the view puts on the screen.
pub open spec fn picture_marks(size: Vec2, deck: DeckModel, band: Band) -> Seq<Mark> {
    let plan = plan_of(size, deck);
    if size.x == 0 || size.y == 0 {
        Seq::empty()
    } else {
        canvas::blank_marks(size) + plan_card_marks(plan.card) + painter::stack_marks(
            plan_stack(plan),
            plan.frame.top as int,
            plan_scene(size, plan, deck, band),
        )
    }
}

/// Where the view can be clicked.
pub open spec fn picture_hits(size: Vec2, deck: DeckModel, band: Band) -> Seq<Hitbox> {
    let plan = plan_of(size, deck);
    if size.x == 0 || size.y == 0 {
        Seq::empty()
    } else {
        painter::stack_hits(
            plan_stack(plan),
            plan.frame.top as int,
            plan_scene(size, plan, deck, band),
        )
    }
}

/// Everything that one frame of the view consists of.
pub struct Picture {
    pub sheet: canvas::Sheet,
    pub hitboxes: Vec<Hitbox>,
    /// The cover to draw on top.
    pub art: Option<ArtSpot>,
    /// The cover to fetch.
    pub wanted: Option<String>,
}

/// Draw the view for a screen of `size`.
pub fn draw(size: Vec2, deck: &Deck, band: &Band) -> (picture: Picture)
    requires
        painter::drawable(size),
        band.aligned(),
    ensures
        picture.sheet@ == picture_marks(size, deck@, *band),
        picture.hitboxes@ == picture_hits(size, deck@, *band),
        (match picture.art {
            Some(spot) => Some(spot@),
            None => None,
        }) == (if size.x == 0 || size.y == 0 {
            None
        } else {
            plan_of(size, deck@).art
        }),
        model::optional_text(picture.wanted) == (if size.x == 0 || size.y == 0 {
            None
        } else {
            plan_of(size, deck@).wanted
        }),
{
    let mut painter = Painter::new(size);
    if size.x == 0 || size.y == 0 {
        return Picture {
            sheet: painter.sheet,
            hitboxes: painter.hitboxes,
            art: None,
            wanted: None,
        };
    }
    painter.sheet.blank(size);
    let plan = plan(size, deck);
    if let Some(card) = &plan.card {
        let footer = match &card.footer {
            Some(footer) => Some(footer.as_str()),
            None => None,
        };
        painter.draw_card(card.rect, &card.chip, card.badge, footer);
    }
    assert(painter.sheet@ =~= canvas::blank_marks(size) + plan_card_marks(plan@.card));
    let playable = match &deck.current {
        Some(playable) => Some(playable),
        None => None,
    };
    painter.draw_blocks(
        plan.stack,
        plan.frame,
        playable,
        deck.progress_ms,
        band,
        deck.status.is_playing(),
    );
    assert(painter.hitboxes@ =~= picture_hits(size, deck@, *band));
    Picture { sheet: painter.sheet, hitboxes: painter.hitboxes, art: plan.art, wanted: plan.wanted }
}

/// The rows of the first band of a stack.
pub open spec fn band_rows(stack: Seq<BlockModel>) -> Option<usize>
    decreases stack.len(),
{
    if stack.len() == 0 {
        None
    } else {
        match stack.first().kind {
            KindModel::Spectrum(rows) => Some(rows),
            _ => band_rows(stack.drop_first()),
        }
    }
}

/// The columns and rows of the band, where the view shows one.
pub open spec fn band_cells(size: Vec2, deck: DeckModel) -> Option<(usize, usize)> {
    let plan = plan_of(size, deck);
    match (band_rows(plan_stack(plan)), canvas::visible_part(plan.frame.region, size.x)) {
        (Some(rows), Some(part)) => Some((painter::band_width(part.width), rows)),
        _ => None,
    }
}

/// How many columns and rows the view gives to the band, so that as many levels can be
/// worked out before it is drawn.
pub fn band_size(size: Vec2, deck: &Deck) -> (cells: Option<(usize, usize)>)
    requires
        painter::drawable(size),
    ensures
        cells == band_cells(size, deck@),
{
    let plan = plan(size, deck);
    let frame = plan.frame;
    let mut stack = plan.stack;
    blocks::fit_blocks(&mut stack, frame.height);
    let part = match frame.region.visible(size.x) {
        Some(part) => part,
        None => {
            return None;
        },
    };
    let width: usize = if part.width < painter::SPECTRUM_MAX_WIDTH {
        part.width
    } else {
        painter::SPECTRUM_MAX_WIDTH
    };
    assert(stack@.skip(0) =~= stack@);
    for i in 0..stack.list.len()
        invariant
            stack@.len() == stack.list@.len(),
            stack@ == plan_stack(plan_of(size, deck@)),
            canvas::visible_part(plan_of(size, deck@).frame.region, size.x) == Some(part),
            width == painter::band_width(part.width),
            band_rows(stack@) == band_rows(stack@.skip(i as int)),
    {
        let made = &stack.list[i];
        assert(stack@.skip(i as int).first() == made@);
        assert(stack@.skip(i as int).drop_first() =~= stack@.skip(i + 1));
        if let BlockKind::Spectrum(rows) = &made.kind {
            return Some((width, *rows));
        }
    }
    None
}

// ---------------------------------------------------------------------------
// What the layout promises.
// ---------------------------------------------------------------------------

/// A card stays on the screen that it was made for.
pub proof fn law_card_stays_on_the_screen(size: Vec2, height: int)
    requires
        size.x >= CARD_MIN_WIDTH,
        size.y >= 8,
        0 <= height,
    ensures
        card_rect(size, height).left < card_rect(size, height).right < size.x,
        card_rect(size, height).top <= card_rect(size, height).bottom < size.y,
{
}

/// The content of a card lies strictly inside its frame.
pub proof fn law_content_lies_inside_the_card(
    size: Vec2,
    stack: Seq<BlockModel>,
    url: Option<Seq<char>>,
    art: Art,
)
    requires
        size.x >= CARD_MIN_WIDTH,
        size.y >= 8,
        blocks::total_height(card_content(stack, size.y as int)) <= size.y - 4,
    ensures
        ({
            let plan = card_plan(size, stack, Seq::empty(), None, None, url, art);
            let rect = card_rect(size, blocks::total_height(plan.stack) as int);
            &&& rect.top < plan.frame.top
            &&& plan.frame.top + plan.frame.height <= rect.bottom
            &&& rect.left < plan.frame.region.start
            &&& plan.frame.region.start + plan.frame.region.width <= rect.right
        }),
{
}

/// The text column beside a cover is never narrower than the transport line, starts to the
/// right of the cover and ends inside the card; the cover is twice as wide as it is tall
/// and lies within the rows of the content.
pub proof fn law_a_cover_never_crowds_the_text(size: Vec2, url: Seq<char>, height: int)
    requires
        size.x <= usize::MAX / 2,
        size.y <= usize::MAX / 2,
        0 <= height <= size.y,
    ensures
        art_shown(Some(url), Art::Ready, size, height) matches Some(art) ==> {
            let frame = card_frame(size, height, Some(art));
            &&& frame.region.width >= ART_MIN_TEXT_WIDTH
            &&& art.offset.x + art.size.x < frame.region.start
            &&& art.size.x == 2 * art.size.y
            &&& ART_MIN_HEIGHT <= art.size.y <= ART_MAX_HEIGHT
            &&& frame.top <= art.offset.y
            &&& art.offset.y + art.size.y <= frame.top + height
        },
{
}

/// A cover is fetched only where it would be shown once it is there.
pub proof fn law_only_covers_with_room_are_fetched(url: Option<Seq<char>>, size: Vec2, height: int)
    ensures
        art_wanted(url, Art::Missing, size, height) is Some <==> art_shown(
            url,
            Art::Ready,
            size,
            height,
        ) is Some,
        art_wanted(url, Art::Missing, size, height) matches Some(wanted) ==> art_shown(
            url,
            Art::Ready,
            size,
            height,
        )->0.url == wanted,
        art_wanted(url, Art::Ready, size, height) is None,
        art_wanted(url, Art::Off, size, height) is None,
{
}

// ---------------------------------------------------------------------------
// What the card promises to say.
// ---------------------------------------------------------------------------

/// The word on the card tells what the player is doing: it reads as playing exactly while
/// something plays, as paused exactly while something is paused, and as stopped otherwise;
/// no two of these read alike, and neither do their icons.
pub proof fn law_the_state_of_the_player_is_told_apart(status: PlayerEvent, nerdfont: bool)
    ensures
        status_word(status) == seq!['P', 'L', 'A', 'Y', 'I', 'N', 'G'] <==> status is Playing,
        status_word(status) == seq!['P', 'A', 'U', 'S', 'E', 'D'] <==> status is Paused,
        status_word(status) == seq!['S', 'T', 'O', 'P', 'P', 'E', 'D'] <==> !(status is Playing)
            && !(status is Paused),
        status_icon(status, false) == seq!['\u{25b6}'] <==> status is Playing,
        status_icon(status, false) == seq!['\u{2161}'] <==> status is Paused,
        status_icon(status, true) == seq!['\u{f040a}'] <==> status is Playing,
        status_icon(status, true) == seq!['\u{f03e4}'] <==> status is Paused,
        status_icon(status, nerdfont) == seq!['\u{25a0}'] <==> !(status is Playing) && !(
        status is Paused),
{
    lemma_state_words();
    lemma_state_icons();
}

proof fn lemma_state_words()
    ensures
        "PLAYING"@ == seq!['P', 'L', 'A', 'Y', 'I', 'N', 'G'],
        "PAUSED"@ == seq!['P', 'A', 'U', 'S', 'E', 'D'],
        "STOPPED"@ == seq!['S', 'T', 'O', 'P', 'P', 'E', 'D'],
        "PLAYING"@ != "PAUSED"@,
        "PLAYING"@ != "STOPPED"@,
        "PAUSED"@ != "STOPPED"@,
{
    reveal_strlit("PLAYING");
    reveal_strlit("PAUSED");
    reveal_strlit("STOPPED");
    assert("PLAYING"@ =~= seq!['P', 'L', 'A', 'Y', 'I', 'N', 'G']);
    assert("PAUSED"@ =~= seq!['P', 'A', 'U', 'S', 'E', 'D']);
    assert("STOPPED"@ =~= seq!['S', 'T', 'O', 'P', 'P', 'E', 'D']);
    assert("PLAYING"@[0] != "STOPPED"@[0]);
}

proof fn lemma_state_icons()
    ensures
        "\u{25b6}"@ == seq!['\u{25b6}'],
        "\u{2161}"@ == seq!['\u{2161}'],
        "\u{f040a}"@ == seq!['\u{f040a}'],
        "\u{f03e4}"@ == seq!['\u{f03e4}'],
        "\u{25a0}"@ == seq!['\u{25a0}'],
        forall|one: char, other: char|
            #![trigger seq![one], seq![other]]
            seq![one] == seq![other] ==> one == other,
{
    reveal_strlit("\u{25b6}");
    reveal_strlit("\u{2161}");
    reveal_strlit("\u{f040a}");
    reveal_strlit("\u{f03e4}");
    reveal_strlit("\u{25a0}");
    assert("\u{25b6}"@ =~= seq!['\u{25b6}']);
    assert("\u{2161}"@ =~= seq!['\u{2161}']);
    assert("\u{f040a}"@ =~= seq!['\u{f040a}']);
    assert("\u{f03e4}"@ =~= seq!['\u{f03e4}']);
    assert("\u{25a0}"@ =~= seq!['\u{25a0}']);
    assert forall|one: char, other: char|
        #![trigger seq![one], seq![other]]
        seq![one] == seq![other] implies one == other by {
        assert(seq![one][0] == one && seq![other][0] == other);
    }
}

/// On a screen with room for the card, the chip in its top border is the icon, two blanks
/// and the word of what the player is doing; on a smaller one the two stand in the first
/// line, in the same order.
pub proof fn law_the_state_is_on_the_screen(size: Vec2, deck: DeckModel)
    requires
        deck.current is Some,
    ensures
        ({
            let word = if deck.status is Playing {
                seq!['P', 'L', 'A', 'Y', 'I', 'N', 'G']
            } else if deck.status is Paused {
                seq!['P', 'A', 'U', 'S', 'E', 'D']
            } else {
                seq!['S', 'T', 'O', 'P', 'P', 'E', 'D']
            };
            let icon = status_icon(deck.status, deck.nerdfont);
            let plan = plan_of(size, deck);
            let flat = content(deck, deck.current->0, false);
            &&& size.x >= 40 && size.y >= 15 <==> plan.card is Some
            &&& plan.card matches Some(card) ==> card.chip == icon + seq![' ', ' '] + word
            &&& flat[0].kind matches KindModel::Segments(runs) && runs.len() == 2 && runs[0].text
                == icon + seq![' ', ' '] && runs[1].text == word && runs[0].ink == Ink::Playing
                && runs[1].ink == Ink::Secondary
            &&& plan.card is None ==> plan.stack == blocks::fitted(flat, size.y as nat)
        }),
{
    lemma_state_words();
    reveal_strlit("  ");
    assert("  "@ =~= seq![' ', ' ']);
}

/// The label of a toggle says how it stands: repeating nothing, all or one, and shuffling or
/// not, at its end; the toggle is lit exactly while it is on. Each is wired to the control
/// it names.
pub proof fn law_a_toggle_says_how_it_stands(deck: DeckModel)
    ensures
        ({
            let runs = transport(deck);
            let repeat = runs[0].text;
            let shuffle = runs[2].text;
            &&& repeat.len() >= 3 && shuffle.len() >= 3
            &&& repeat.skip(repeat.len() - 3) == seq!['o', 'f', 'f'] <==> deck.repeat
                == RepeatSetting::Off
            &&& repeat.skip(repeat.len() - 3) == seq!['a', 'l', 'l'] <==> deck.repeat
                == RepeatSetting::RepeatPlaylist
            &&& repeat.skip(repeat.len() - 3) == seq!['o', 'n', 'e'] <==> deck.repeat
                == RepeatSetting::RepeatTrack
            &&& shuffle.skip(shuffle.len() - 3) == seq![' ', 'o', 'n'] <==> deck.shuffle
            &&& shuffle.skip(shuffle.len() - 3) == seq!['o', 'f', 'f'] <==> !deck.shuffle
            &&& runs[0].ink == Ink::Playing <==> deck.repeat != RepeatSetting::Off
            &&& runs[0].ink == Ink::Secondary <==> deck.repeat == RepeatSetting::Off
            &&& runs[2].ink == Ink::Playing <==> deck.shuffle
            &&& runs[2].ink == Ink::Secondary <==> !deck.shuffle
            &&& runs[0].control == Some(Control::Repeat)
            &&& runs[2].control == Some(Control::Shuffle)
            &&& deck.nerdfont ==> (repeat[0] == '\u{f0458}' <==> deck.repeat
                == RepeatSetting::RepeatTrack) && (repeat[0] == '\u{f0456}' <==> deck.repeat
                != RepeatSetting::RepeatTrack) && shuffle[0] == '\u{f049d}' && repeat[1] == ' '
                && shuffle[1] == ' ' && repeat[2] == 'r' && shuffle[2] == 's'
            &&& !deck.nerdfont ==> repeat[0] == 'r' && shuffle[0] == 's' && repeat.len() == 10
        }),
{
    reveal_strlit("");
    reveal_strlit("repeat off");
    reveal_strlit("repeat all");
    reveal_strlit("repeat one");
    reveal_strlit("shuffle on");
    reveal_strlit("shuffle off");
    reveal_strlit("\u{f0458} ");
    reveal_strlit("\u{f0456} ");
    reveal_strlit("\u{f049d} ");
    let runs = transport(deck);
    let repeat = runs[0].text;
    let shuffle = runs[2].text;
    let (off, all, one) = (seq!['o', 'f', 'f'], seq!['a', 'l', 'l'], seq!['o', 'n', 'e']);
    let on = seq![' ', 'o', 'n'];
    assert(off[0] == 'o' && off[1] == 'f' && all[0] == 'a' && one[0] == 'o' && one[1] == 'n'
        && on[0] == ' ');
    let repeat_end = repeat.skip(repeat.len() - 3);
    match deck.repeat {
        RepeatSetting::Off => {
            assert(repeat_end =~= off);
        },
        RepeatSetting::RepeatPlaylist => {
            assert(repeat_end =~= all);
        },
        RepeatSetting::RepeatTrack => {
            assert(repeat_end =~= one);
        },
    }
    let shuffle_end = shuffle.skip(shuffle.len() - 3);
    if deck.shuffle {
        assert(shuffle_end =~= on);
    } else {
        assert(shuffle_end =~= off);
    }
}

/// The volume is shown twice: as a meter of eight cells that can be clicked, and right behind
/// it as the percentage that the meter shows.
pub proof fn law_the_volume_is_shown_as_meter_and_figure(deck: DeckModel)
    requires
        deck.volume <= 0xffff,
    ensures
        ({
            let runs = transport(deck);
            let figure = runs[6].text;
            let percent = text::number_of(figure.subrange(1, figure.len() - 1));
            &&& runs.len() == 7
            &&& runs[5].control == Some(Control::Volume)
            &&& runs[5].text.len() == 8
            &&& runs[5].ink == Ink::Accent && runs[6].ink == Ink::Secondary
            &&& runs[4].ink == Ink::Secondary
            &&& deck.nerdfont ==> runs[4].text == seq!['\u{f057e}', ' ']
            &&& !deck.nerdfont ==> runs[4].text.len() == 0
            &&& runs[1] == runs[3] && runs[1].ink == Ink::Secondary && runs[1].text.len() == 7
                && runs[1].text[3] == '\u{2022}'
            &&& figure.len() >= 3 && figure[0] == ' ' && figure.last() == '%'
            &&& -0xffff <= 2 * (percent * 0xffff - 100 * deck.volume) <= 0xffff
            &&& forall|i: int|
                0 <= i < 8 ==> #[trigger] runs[5].text[i] == if 200 * i + 100 <= 16 * percent {
                    '\u{25ae}'
                } else {
                    '\u{25af}'
                }
            &&& runs[1].control is None && runs[3].control is None && runs[4].control is None
                && runs[6].control is None
        }),
{
    let percent = meters::nearest_percent(deck.volume);
    let runs = transport(deck);
    let figure = runs[6].text;
    reveal_strlit("");
    reveal_strlit(" ");
    reveal_strlit("%");
    reveal_strlit("\u{f057e} ");
    reveal_strlit("   \u{2022}   ");
    assert("\u{f057e} "@ =~= seq!['\u{f057e}', ' ']);
    meters::law_the_volume_spans_its_range(deck.volume, 0xffff, 8);
    meters::law_a_meter_shows_its_percentage(deck.volume, percent, 8);
    text::law_a_number_reads_back(percent);
    assert(figure.subrange(1, figure.len() - 1) =~= text::digits(percent));
}

/// The buttons stand in the order back, play or pause, on, each wired to its control. The
/// middle one shows what a click would do: bars while something plays, a triangle while
/// nothing does. The keys are named only where they are wanted.
pub proof fn law_buttons_show_what_they_do(playing: bool, keys: bool)
    ensures
        ({
            let runs = buttons(playing, false, keys);
            let (back, play, on) = (runs[0].text, runs[2].text, runs[4].text);
            &&& runs.len() == 5
            &&& runs[0].control == Some(Control::Previous)
            &&& runs[2].control == Some(Control::PlayPause)
            &&& runs[4].control == Some(Control::Next)
            &&& runs[1].control is None && runs[3].control is None
            &&& runs[0].ink == Ink::Accent && runs[2].ink == Ink::Playing && runs[4].ink
                == Ink::Accent
            &&& back.len() >= 4 && play.len() >= 4 && on.len() >= 4
            &&& back[2] == '\u{25c0}'
            &&& on[2] == '\u{25b6}'
            &&& play[2] == '\u{275a}' <==> playing
            &&& play[2] == '\u{25b6}' <==> !playing
            &&& keys ==> back[back.len() - 3] == '<' && play[play.len() - 3] == 'P' && on[on.len()
                - 3] == '>'
            &&& keys ==> back == seq!['[', ' ', '\u{25c0}', '\u{25c0}', ' ', ' ', '<', ' ', ']']
            &&& keys ==> on == seq!['[', ' ', '\u{25b6}', '\u{25b6}', ' ', ' ', '>', ' ', ']']
            &&& keys && !playing ==> play.take(5) == seq!['[', ' ', '\u{25b6}', ' ', ' ']
                && play.skip(5) == "Shift+P ]"@
            &&& !keys ==> back == seq!['[', ' ', '\u{25c0}', '\u{25c0}', ' ', ']']
            &&& runs[1].text.len() == 2 && runs[3].text.len() == 2
            &&& !keys ==> back.len() == 6 && on.len() == 6
        }),
        ({
            let runs = buttons(playing, true, keys);
            &&& runs[0].control == Some(Control::Previous) && runs[0].text[2] == '\u{f04ab}'
            &&& runs[2].control == Some(Control::PlayPause)
            &&& runs[4].control == Some(Control::Next) && runs[4].text[2] == '\u{f04ad}'
            &&& runs[2].text[2] == '\u{f03e4}' <==> playing
            &&& runs[2].text[2] == '\u{f040a}' <==> !playing
        }),
{
    reveal_strlit("[ ");
    reveal_strlit("  ");
    reveal_strlit(" ]");
    reveal_strlit("<");
    reveal_strlit(">");
    reveal_strlit("Shift+P");
    reveal_strlit("\u{f03e4}");
    reveal_strlit("\u{f040a}");
    reveal_strlit("\u{f04ab}");
    reveal_strlit("\u{f04ad}");
    reveal_strlit("\u{275a}\u{275a}");
    reveal_strlit("\u{25b6}");
    reveal_strlit("\u{25c0}\u{25c0}");
    reveal_strlit("\u{25b6}\u{25b6}");
    reveal_strlit("Shift+P ]");
    let runs = buttons(playing, false, keys);
    let (back, play, on) = (runs[0].text, runs[2].text, runs[4].text);
    if keys {
        assert(back =~= seq!['[', ' ', '\u{25c0}', '\u{25c0}', ' ', ' ', '<', ' ', ']']);
        assert(on =~= seq!['[', ' ', '\u{25b6}', '\u{25b6}', ' ', ' ', '>', ' ', ']']);
        if !playing {
            assert(play.take(5) =~= seq!['[', ' ', '\u{25b6}', ' ', ' ']);
            assert(play.skip(5) =~= "Shift+P ]"@);
        }
    } else {
        assert(back =~= seq!['[', ' ', '\u{25c0}', '\u{25c0}', ' ', ']']);
    }
}

/// The queue is counted from one: the label is the place of the item and how many there are,
/// and there is a label exactly where an item has a place in a queue of more than one.
pub proof fn law_the_queue_is_counted_from_one(position: Option<usize>, queue_len: nat)
    ensures
        position_label(position, queue_len) is Some <==> position is Some && queue_len > 1,
        position_label(position, queue_len) matches Some(label) ==> {
            let place = text::digits((position->0 + 1) as nat);
            let count = text::digits(queue_len);
            &&& label.len() == place.len() + 3 + count.len()
            &&& text::number_of(label.take(place.len() as int)) == position->0 + 1
            &&& label[place.len() as int + 1] == '/'
            &&& text::number_of(label.skip(place.len() as int + 3)) == queue_len
        },
{
    if let Some(label) = position_label(position, queue_len) {
        let place = text::digits((position->0 + 1) as nat);
        let count = text::digits(queue_len);
        reveal_strlit(" / ");
        assert(label.take(place.len() as int) =~= place);
        assert(label.skip(place.len() as int + 3) =~= count);
        text::law_a_number_reads_back((position->0 + 1) as nat);
        text::law_a_number_reads_back(queue_len);
    }
}

/// A track is described by its title, its artists, its album and its number, an episode by
/// its name and its date; the disc is named exactly where it is not the first.
pub proof fn law_an_item_is_described_by_what_it_is(playable: PlayableModel)
    ensures
        playable matches PlayableModel::Track(track) ==> {
            let kind = kind_of(playable);
            let number = text::digits(track.track_number as nat);
            &&& title_of(playable) == track.title
            &&& track.artists.len() == 1 ==> byline_of(playable) == track.artists[0]
            &&& track.album matches Some(album) ==> album_of(playable) == album
            &&& track.album is None ==> album_of(playable).len() == 0
            &&& kind.len() >= number.len() + 6
            &&& text::number_of(kind.skip(kind.len() - number.len())) == track.track_number
            &&& kind[0] == 'D' <==> track.disc_number > 1
            &&& kind[0] == 'T' <==> track.disc_number <= 1
            &&& track.disc_number > 1 ==> text::number_of(
                kind.subrange(5, 5 + text::digits(track.disc_number as nat).len() as int),
            ) == track.disc_number
        },
        playable matches PlayableModel::Episode(episode) ==> title_of(playable) == episode.name
            && album_of(playable) == episode.release_date && byline_of(playable) != kind_of(
            playable,
        ),
{
    reveal_strlit("DISC ");
    reveal_strlit("TRACK ");
    reveal_strlit("  \u{2022}  TRACK ");
    reveal_strlit("PODCAST EPISODE");
    reveal_strlit("EPISODE");
    let kind = kind_of(playable);
    match playable {
        PlayableModel::Track(track) => {
            let number = text::digits(track.track_number as nat);
            let disc = text::digits(track.disc_number as nat);
            text::law_a_number_reads_back(track.track_number as nat);
            text::law_a_number_reads_back(track.disc_number as nat);
            assert(kind.skip(kind.len() - number.len()) =~= number);
            if track.disc_number > 1 {
                assert(kind.subrange(5, 5 + disc.len() as int) =~= disc);
            }
        },
        PlayableModel::Episode(_) => {
            assert("PODCAST EPISODE"@.len() != "EPISODE"@.len());
        },
    }
}

/// What comes next is announced by who it is by and then by its title, or by the title alone
/// where nobody is named.
pub proof fn law_the_next_item_is_named(playable: PlayableModel)
    ensures
        ({
            let preview = preview_of(playable);
            let (by, title) = (byline_of(playable), title_of(playable));
            &&& by.len() == 0 ==> preview == title
            &&& by.len() > 0 ==> preview.len() == by.len() + 3 + title.len() && preview.take(
                by.len() as int,
            ) == by && preview[by.len() as int + 1] == '\u{2013}' && preview.skip(
                by.len() as int + 3,
            ) == title
        }),
{
    let preview = preview_of(playable);
    let (by, title) = (byline_of(playable), title_of(playable));
    reveal_strlit(" \u{2013} ");
    if by.len() > 0 {
        assert(preview.take(by.len() as int) =~= by);
        assert(preview.skip(by.len() as int + 3) =~= title);
    }
}

/// The badge says that an item is saved, behind the sign for it, and there is one only then.
pub proof fn law_only_saved_items_are_badged(saved: bool, nerdfont: bool)
    ensures
        saved_badge(saved, nerdfont) is Some <==> saved,
        saved_badge(saved, nerdfont) matches Some(badge) ==> badge == seq![
            if nerdfont {
                '\u{f012c}'
            } else {
                '\u{2665}'
            },
            ' ',
            's',
            'a',
            'v',
            'e',
            'd',
        ],
{
    reveal_strlit("\u{f012c} saved");
    reveal_strlit("\u{2665} saved");
    assert("\u{f012c} saved"@ =~= seq!['\u{f012c}', ' ', 's', 'a', 'v', 'e', 'd']);
    assert("\u{2665} saved"@ =~= seq!['\u{2665}', ' ', 's', 'a', 'v', 'e', 'd']);
}

/// A card sits in the middle of the screen: the margins on two opposite sides differ by one
/// cell at most. It keeps two columns to either side, and is never wider than 78.
pub proof fn law_a_card_is_centred(size: Vec2, height: int)
    requires
        size.x >= 40,
        size.y >= 8,
        0 <= height,
    ensures
        ({
            let rect = card_rect(size, height);
            let (left, right) = (rect.left as int, size.x - 1 - rect.right);
            let (above, below) = (rect.top as int, size.y - 1 - rect.bottom);
            &&& 0 <= right - left <= 1
            &&& 0 <= below - above <= 1
            &&& left >= 2
            &&& rect.columns() <= 78
            &&& rect.columns() == 78 || left == 2
            &&& height + 4 <= size.y ==> rect.bottom - rect.top + 1 == height + 4
        }),
{
}

/// A cover is as tall as it can be: it has 14 rows, or as many as the text, or one more row
/// would leave the text less than 48 columns. It is in the middle of the rows of the text.
pub proof fn law_a_cover_is_as_tall_as_it_can_be(size: Vec2, url: Seq<char>, height: int)
    requires
        size.x <= usize::MAX / 2,
        size.y <= usize::MAX / 2,
        0 <= height <= size.y,
    ensures
        ({
            let columns = card_columns(size.x as int);
            &&& art_shown(Some(url), Art::Ready, size, height) matches Some(art) ==> {
                let above = art.offset.y - content_top(size, height);
                let below = height - art.size.y - above;
                &&& art.url == url
                &&& art.size.x == 2 * art.size.y
                &&& 5 <= art.size.y <= 14
                &&& columns - art.size.x - 9 >= 48
                &&& art.size.y == 14 || art.size.y == height || columns - 2 * (art.size.y + 1) - 9
                    < 48
                &&& 0 <= below - above <= 1
                &&& art.offset.x == card_left(size.x as int) + 3
            }
            &&& art_shown(Some(url), Art::Ready, size, height) is Some <==> height >= 5 && columns
                - 2 * 5 - 9 >= 48
            &&& art_shown(Some(url), Art::Missing, size, height) is None
            &&& art_shown(Some(url), Art::Off, size, height) is None
            &&& art_shown(None, Art::Ready, size, height) is None
        }),
{
}

/// Which layout is drawn goes by what is playing and by the room there is: a card from 40
/// columns and 15 rows on for an item, and from 8 rows on where nothing is playing. Only the
/// card of an item has a badge, a footer or a cover.
pub proof fn law_the_layout_goes_by_the_room(size: Vec2, deck: DeckModel)
    ensures
        ({
            let plan = plan_of(size, deck);
            let rows: int = if deck.current is Some {
                15
            } else {
                8
            };
            &&& plan.card is Some <==> size.x >= 40 && size.y >= rows
            &&& plan.card is None ==> plan.art is None && plan.wanted is None
            &&& plan.card matches Some(card) ==> {
                &&& deck.current is None ==> card.badge is None && card.footer is None
                    && plan.art is None && plan.wanted is None
                &&& deck.current is Some ==> (card.badge is Some <==> deck.saved)
                &&& deck.current is Some ==> (card.footer is Some <==> deck.position is Some
                    && deck.queue_len > 1)
            }
        }),
{
}

/// From top to bottom, the card has the band, the title, the artists, the bar, the times and
/// the buttons, and the transport line below those; the flat layout says what the player is
/// doing where the card has the band, and has no transport line. The title, the bar and, on
/// the card, the buttons are never dropped.
pub proof fn law_the_stack_is_in_order(deck: DeckModel, playable: PlayableModel, card: bool)
    ensures
        ({
            let stack = content(deck, playable, card);
            let album: int = if album_of(playable).len() > 0 {
                1
            } else {
                0
            };
            let kind: int = if card {
                2
            } else {
                0
            };
            let bar = 5 + album + kind;
            &&& stack[0].kind is Spectrum <==> card
            &&& card ==> stack[0].kind == KindModel::Spectrum(3)
            &&& stack[2].kind matches KindModel::Line { text, ink, bold } && text == title_of(
                playable,
            ) && ink == Ink::Title && bold
            &&& stack[2].drop_order == 0
            &&& stack[3].kind matches KindModel::Line { text, ink, bold } && text == byline_of(
                playable,
            ) && ink == Ink::Primary && !bold
            &&& album == 1 ==> (stack[4].kind matches KindModel::Line { text, ink, bold } && text
                == album_of(playable) && ink == Ink::Secondary && !bold)
            &&& card ==> (stack[bar - 2].kind matches KindModel::Line { text, ink, bold } && text
                == kind_of(playable) && ink == Ink::Secondary && !bold)
            &&& stack[bar].kind is Progress && stack[bar].drop_order == 0
            &&& stack[bar + 1].kind is Times
            &&& stack[bar + 3].kind == KindModel::Segments(
                buttons(deck.status is Playing, deck.nerdfont, card),
            )
            &&& card ==> stack[bar + 3].drop_order == 0
            &&& !card ==> stack.len() == bar + 4
            &&& card ==> stack[bar + 5].kind is Rule && stack[bar + 6].kind == KindModel::Segments(
                transport(deck),
            )
            &&& card && deck.next is None ==> stack.len() == bar + 7
            &&& card && deck.next is Some ==> stack.len() == bar + 8 && (stack[bar
                + 7].kind matches KindModel::Segments(runs) && runs.len() == 2 && runs[0].text
                == "next up  "@ && runs[1].text == preview_of(deck.next->0) && runs[0].ink
                == Ink::Accent && runs[1].ink == Ink::Secondary)
        }),
{
}

/// Where a card is short of rows, the rule goes before what comes next is dropped, and then,
/// in this order, the number of the track, the band, the album, the transport line, the
/// times and the artists; empty rows go before any of these.
pub proof fn law_decoration_goes_before_information(deck: DeckModel, playable: PlayableModel)
    requires
        album_of(playable).len() > 0,
        deck.next is Some,
    ensures
        ({
            let stack = content(deck, playable, true);
            let (band, byline, album, kind) = (stack[0], stack[3], stack[4], stack[6]);
            let (times, rule, transport, next) = (stack[9], stack[13], stack[14], stack[15]);
            &&& stack[1].drop_order > rule.drop_order > next.drop_order > kind.drop_order
                > band.drop_order > album.drop_order > transport.drop_order > times.drop_order
                > byline.drop_order > 0
            &&& forall|i: int|
                0 <= i < stack.len() && (#[trigger] stack[i]).kind is Blank ==> stack[i].drop_order
                    == stack[1].drop_order
        }),
{
}

/// Inside a card the text keeps as far from one edge as from the other, and so it does from
/// the upper and the lower one; a cover takes its columns, and as many as the text keeps from
/// the edge, off the left side.
pub proof fn law_the_text_keeps_clear_of_the_edges(size: Vec2, height: int, url: Seq<char>)
    requires
        40 <= size.x <= usize::MAX / 2,
        8 <= size.y <= usize::MAX / 2,
        0 <= height,
        height + 4 <= size.y,
    ensures
        ({
            let rect = card_rect(size, height);
            let frame = card_frame(size, height, None);
            let end = frame.region.start + frame.region.width;
            &&& frame.region.start - rect.left == 3
            &&& rect.right + 1 - end == 3
            &&& frame.top - rect.top == 2
            &&& rect.bottom + 1 - (frame.top + frame.height) == 2
            &&& frame.height == height
            &&& frame.edges == Some((rect.left, rect.right))
        }),
        art_shown(Some(url), Art::Ready, size, height) matches Some(art) ==> {
            let rect = card_rect(size, height);
            let frame = card_frame(size, height, Some(art));
            let end = frame.region.start + frame.region.width;
            &&& art.offset.x - rect.left == 3
            &&& frame.region.start == art.offset.x + art.size.x + 3
            &&& rect.right + 1 - end == 3
            &&& frame.edges is None
        },
{
}

/// A stack without a card keeps one column to either side, and is in the middle of the rows.
pub proof fn law_a_flat_stack_is_centred(size: Vec2, deck: DeckModel)
    requires
        size.x >= 2,
        plan_of(size, deck).card is None,
        blocks::total_height(plan_of(size, deck).stack) <= size.y,
    ensures
        ({
            let plan = plan_of(size, deck);
            let above = plan.frame.top as int;
            let below = size.y - above - blocks::total_height(plan.stack);
            &&& plan.frame.region.start == 1
            &&& plan.frame.region.start + plan.frame.region.width + 1 == size.x
            &&& 0 <= below - above <= 1
            &&& plan.frame.edges is None
        }),
{
    if deck.current is None {
        reveal_with_fuel(blocks::total_height, 5);
        let idle = idle_content(deck.nerdfont);
        assert(idle.drop_last().drop_last().drop_last().drop_last().len() == 0);
        assert(blocks::total_height(idle) == 4);
    }
}

/// Where nothing is playing, the view says so, in the title and on the chip of its card.
pub proof fn law_an_idle_player_says_so(size: Vec2, deck: DeckModel)
    requires
        deck.current is None,
    ensures
        ({
            let plan = plan_of(size, deck);
            let idle = idle_content(deck.nerdfont);
            &&& idle.len() == 4
            &&& idle[0].kind matches KindModel::Line { text, ink, .. } && ink == Ink::Accent && text
                == (if deck.nerdfont {
                seq!['\u{f075a}']
            } else {
                seq!['\u{25c7}']
            })
            &&& idle[1].kind is Blank
            &&& idle[3].kind matches KindModel::Line { text, ink, .. } && ink == Ink::Secondary
                && text == "Pick a track in your library, or press Enter on a search result"@
            &&& idle[0].drop_order > idle[3].drop_order > 0
            &&& idle[2].drop_order == 0
            &&& idle[2].kind matches KindModel::Line { text, bold, .. } && bold && text
                == "Nothing playing yet"@
            &&& plan.card matches Some(card) ==> card.chip == seq!['I', 'D', 'L', 'E']
            &&& plan.card is None ==> plan.stack == idle
            &&& plan.card is Some ==> plan.stack == blocks::fitted(idle, (size.y - 4) as nat)
        }),
{
    reveal_strlit("IDLE");
    reveal_strlit("\u{f075a}");
    reveal_strlit("\u{25c7}");
    assert("\u{f075a}"@ =~= seq!['\u{f075a}']);
    assert("\u{25c7}"@ =~= seq!['\u{25c7}']);
    assert("IDLE"@ =~= seq!['I', 'D', 'L', 'E']);
}

/// The levels that are asked for are those that are drawn: there is a band in the stack with
/// so many rows, and the columns are those of the area that it is drawn in.
pub proof fn law_as_many_levels_as_are_drawn(size: Vec2, deck: DeckModel, top: int)
    ensures
        band_cells(size, deck) matches Some((columns, rows)) ==> {
            let plan = plan_of(size, deck);
            let part = canvas::visible_part(plan.frame.region, size.x);
            &&& exists|i: int|
                0 <= i < plan_stack(plan).len() && (#[trigger] plan_stack(plan)[i]).kind
                    == KindModel::Spectrum(rows)
            &&& part is Some
            &&& painter::band_area(part->0, top, rows).width == columns
        },
{
    lemma_band_rows(plan_stack(plan_of(size, deck)));
}

proof fn lemma_band_rows(stack: Seq<BlockModel>)
    ensures
        band_rows(stack) matches Some(rows) ==> exists|i: int|
            0 <= i < stack.len() && (#[trigger] stack[i]).kind == KindModel::Spectrum(rows),
    decreases stack.len(),
{
    if stack.len() > 0 {
        let rest = stack.drop_first();
        lemma_band_rows(rest);
        if stack.first().kind is Spectrum {
            assert(stack[0] == stack.first());
        } else if let Some(rows) = band_rows(rest) {
            let i = choose|i: int|
                0 <= i < rest.len() && (#[trigger] rest[i]).kind == KindModel::Spectrum(rows);
            assert(stack[i + 1] == rest[i]);
        }
    }
}

/// What is drawn is what is playing: the bar and the times show the progress of the current
/// item, and the band is live exactly while something plays.
pub proof fn law_the_scene_is_that_of_the_player(
    size: Vec2,
    plan: PlanModel,
    deck: DeckModel,
    band: Band,
)
    ensures
        plan_scene(size, plan, deck, band).live <==> deck.status is Playing,
        plan_scene(size, plan, deck, band).elapsed == deck.progress_ms,
        plan_scene(size, plan, deck, band).playable == deck.current,
        plan_scene(size, plan, deck, band).size == size,
        plan_scene(size, plan, deck, band).region == plan.frame.region,
{
}

/// The picture is a blank view with the card on it and the blocks on that, and a block can be
/// clicked in the rows in which it is drawn. On no screen there is no picture.
pub proof fn law_the_picture_is_laid_out_once(size: Vec2, deck: DeckModel, band: Band)
    ensures
        size.x == 0 || size.y == 0 ==> picture_marks(size, deck, band).len() == 0 && picture_hits(
            size,
            deck,
            band,
        ).len() == 0,
        size.x > 0 && size.y > 0 ==> ({
            let plan = plan_of(size, deck);
            let scene = plan_scene(size, plan, deck, band);
            let stack = blocks::fitted(plan.stack, plan.frame.height as nat);
            let marks = picture_marks(size, deck, band);
            let drawn = painter::stack_marks(stack, plan.frame.top as int, scene);
            &&& marks.take(size.y as int) == canvas::blank_marks(size)
            &&& marks.skip(marks.len() - drawn.len()) == drawn
            &&& picture_hits(size, deck, band) == painter::stack_hits(
                stack,
                plan.frame.top as int,
                scene,
            )
            &&& plan.card is None ==> marks.len() == size.y + drawn.len()
        }),
{
    if size.x > 0 && size.y > 0 {
        let plan = plan_of(size, deck);
        let scene = plan_scene(size, plan, deck, band);
        let stack = blocks::fitted(plan.stack, plan.frame.height as nat);
        let marks = picture_marks(size, deck, band);
        let drawn = painter::stack_marks(stack, plan.frame.top as int, scene);
        assert(marks.take(size.y as int) =~= canvas::blank_marks(size));
        assert(marks.skip(marks.len() - drawn.len()) =~= drawn);
    }
}

/// The word for what the player is doing is read off the screen: where there is a card and
/// the chip fits into it, its icon, two blanks and that word are printed in the top border.
pub proof fn law_the_chip_is_printed(size: Vec2, deck: DeckModel, band: Band)
    requires
        deck.current is Some,
        size.x >= 40,
        size.y >= 15,
        plan_of(size, deck).card matches Some(card) && text::text_width(card.chip) + 8
            < card.rect.columns() && card.rect.left <= card.rect.right,
    ensures
        ({
            let word = if deck.status is Playing {
                seq!['P', 'L', 'A', 'Y', 'I', 'N', 'G']
            } else if deck.status is Paused {
                seq!['P', 'A', 'U', 'S', 'E', 'D']
            } else {
                seq!['S', 'T', 'O', 'P', 'P', 'E', 'D']
            };
            let marks = picture_marks(size, deck, band);
            let rect = plan_of(size, deck).card->0.rect;
            exists|i: int|
                0 <= i < marks.len() && (#[trigger] marks[i]).text == status_icon(
                    deck.status,
                    deck.nerdfont,
                ) + seq![' ', ' '] + word && marks[i].y == rect.top
        }),
{
    law_the_state_is_on_the_screen(size, deck);
    let plan = plan_of(size, deck);
    let card = plan.card->0;
    let marks = picture_marks(size, deck, band);
    let framed = painter::card_marks(card.rect, card.chip, card.badge, card.footer);
    reveal_strlit("  ");
    painter::law_the_chip_is_in_the_top_border(card.rect, card.chip, card.badge, card.footer);
    let at = painter::frame_marks(card.rect).len() as int + 2;
    let drawn = painter::stack_marks(
        plan_stack(plan),
        plan.frame.top as int,
        plan_scene(size, plan, deck, band),
    );
    assert(marks == canvas::blank_marks(size) + framed + drawn);
    assert(marks[size.y + at] == framed[at]);
}

} // verus!
