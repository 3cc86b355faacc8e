//! What the now playing view does when it is clicked, scrolled or given a command.

use vstd::prelude::*;

use crate::canvas::Vec2;
use crate::model::{Order, Playable, RepeatSetting, VOLUME_PERCENT};
#[allow(unused_imports)]
use crate::model::PlayableModel;
use crate::ui::blocks::Control;
use crate::ui::input::{Input, Mouse};
use crate::ui::now_playing::Deck;
#[allow(unused_imports)]
use crate::ui::now_playing::DeckModel;
use crate::ui::painter::Hitbox;

verus! {

/// An item that has been playing for less than this is left by the previous button; one
/// that has been playing for longer starts over.
pub const RESTART_AFTER_MS: u128 = 5000;
/// How far one notch of the wheel moves through an item, in milliseconds.
pub const SCROLL_SEEK_MS: i32 = 5000;

/// `part / whole` of `total`, to the nearest integer.
pub open spec fn nearest_share(total: nat, part: nat, whole: nat) -> nat {
    (2 * total * part + whole) / (2 * whole)
}

/// `part / whole` of `total`, to the nearest integer.
pub(crate) fn share(total: u32, part: usize, whole: usize) -> (amount: u32)
    requires
        part <= whole,
        whole > 0,
    ensures
        amount == nearest_share(total as nat, part as nat, whole as nat),
        amount <= total,
{
    proof {
        assert(2 * total * part <= 2 * total * whole) by (nonlinear_arith)
            requires
                part <= whole,
        ;
        assert(2 * total * whole + whole <= 0x1_ffff_ffff * whole) by (nonlinear_arith)
            requires
                total <= 0xffff_ffff,
                whole >= 0,
        ;
        assert(0x1_ffff_ffff * whole <= 0x1_ffff_ffff * 0xffff_ffff_ffff_ffff) by (nonlinear_arith)
            requires
                0 <= whole <= 0xffff_ffff_ffff_ffff,
        ;
        assert(2 * (total as u128) * (part as u128) == 2 * total * part) by (nonlinear_arith);
        assert((2 * total * part + whole) / (2 * whole as int) <= total) by (nonlinear_arith)
            requires
                2 * total * part <= 2 * total * whole,
                whole > 0,
                total >= 0,
        ;
        assert(2 * (total as nat) * (part as nat) == 2 * total * part) by (nonlinear_arith);
    }
    let doubled: u128 = 2 * (total as u128) * (part as u128) + whole as u128;
    (doubled / (2 * (whole as u128))) as u32
}

/// The setting after this one.
pub open spec fn next_repeat(repeat: RepeatSetting) -> RepeatSetting {
    match repeat {
        RepeatSetting::Off => RepeatSetting::RepeatPlaylist,
        RepeatSetting::RepeatPlaylist => RepeatSetting::RepeatTrack,
        RepeatSetting::RepeatTrack => RepeatSetting::Off,
    }
}

/// How far along a hitbox a position is: so many parts of so many.
pub open spec fn parts(hitbox: Hitbox, position: Vec2) -> (nat, nat) {
    if hitbox.width <= 1 {
        (0, 1)
    } else {
        ((position.x - hitbox.start) as nat, (hitbox.width - 1) as nat)
    }
}

/// What a click on `hitbox` asks for.
pub open spec fn clicked(hitbox: Hitbox, position: Vec2, deck: DeckModel) -> Option<Order> {
    let (part, whole) = parts(hitbox, position);
    match hitbox.control {
        Control::Seek => match deck.current {
            Some(playable) => Some(
                Order::Seek(nearest_share(playable.duration() as nat, part, whole) as u32),
            ),
            None => None,
        },
        Control::Previous => if deck.progress_ms < RESTART_AFTER_MS {
            Some(Order::Previous)
        } else {
            Some(Order::Seek(0))
        },
        Control::PlayPause => Some(Order::TogglePlayback),
        Control::Next => Some(Order::Next),
        Control::Repeat => Some(Order::SetRepeat(next_repeat(deck.repeat))),
        Control::Shuffle => Some(Order::SetShuffle(!deck.shuffle)),
        Control::Volume => Some(Order::SetVolume(nearest_share(0xffff, part, whole) as u16)),
    }
}

/// Run the control that was clicked. These mirror the default command handlers, so a click
/// and its key do the same thing.
pub fn activate(hitbox: Hitbox, position: Vec2, deck: &Deck) -> (order: Option<Order>)
    requires
        hitbox.covers(position),
    ensures
        order == clicked(hitbox, position, deck@),
{
    match hitbox.control {
        Control::Seek => match &deck.current {
            Some(playable) => {
                let (part, whole) = hitbox.fraction(position);
                Some(Order::Seek(share(playable.duration(), part, whole)))
            },
            None => None,
        },
        Control::Previous => {
            // Restart the track unless it just started.
            if deck.progress_ms < RESTART_AFTER_MS {
                Some(Order::Previous)
            } else {
                Some(Order::Seek(0))
            }
        },
        Control::PlayPause => Some(Order::TogglePlayback),
        Control::Next => Some(Order::Next),
        Control::Repeat => {
            let mode = match deck.repeat {
                RepeatSetting::Off => RepeatSetting::RepeatPlaylist,
                RepeatSetting::RepeatPlaylist => RepeatSetting::RepeatTrack,
                RepeatSetting::RepeatTrack => RepeatSetting::Off,
            };
            Some(Order::SetRepeat(mode))
        },
        Control::Shuffle => Some(Order::SetShuffle(!deck.shuffle)),
        Control::Volume => {
            let (part, whole) = hitbox.fraction(position);
            Some(Order::SetVolume(share(0xffff, part, whole) as u16))
        },
    }
}

/// The volume `notches` percent away, as far as the range allows.
pub open spec fn stepped_volume(volume: int, notches: int) -> int {
    let moved = volume + notches * VOLUME_PERCENT;
    if moved < 0 {
        0
    } else if moved > 0xffff {
        0xffff
    } else {
        moved
    }
}

/// Wheel over a control: seek through the track, or step the volume. One notch of volume
/// is one percent, the same as the `+` and `-` keys.
pub fn scroll(control: Control, up: bool, volume: u16) -> (order: Order)
    ensures
        order == scrolled(control, up, volume),
        control == Control::Volume && up ==> (order matches Order::SetVolume(louder) && louder
            == vstd::math::min(volume + 655, 0xffff)),
        control == Control::Volume && !up ==> (order matches Order::SetVolume(softer) && softer
            == vstd::math::max(volume - 655, 0)),
{
    match control {
        Control::Volume => {
            let stepped = if up {
                volume.saturating_add(VOLUME_PERCENT)
            } else {
                volume.saturating_sub(VOLUME_PERCENT)
            };
            Order::SetVolume(stepped)
        },
        _ => Order::SeekRelative(
            if up {
                -SCROLL_SEEK_MS
            } else {
                SCROLL_SEEK_MS
            },
        ),
    }
}

/// What one notch of the wheel over `control` asks for.
pub open spec fn scrolled(control: Control, up: bool, volume: u16) -> Order {
    match control {
        Control::Volume => Order::SetVolume(
            stepped_volume(
                volume as int,
                if up {
                    1
                } else {
                    -1
                },
            ) as u16,
        ),
        _ => Order::SeekRelative(
            if up {
                (-SCROLL_SEEK_MS) as i32
            } else {
                SCROLL_SEEK_MS
            },
        ),
    }
}

/// What becomes of an event.
#[derive(Clone, Copy, PartialEq, Eq, Structural, Debug)]
pub enum Reaction {
    /// It is left to others.
    Ignored,
    /// The search overlay opens.
    OpenSearch,
    /// It is used up, with nothing or something to do.
    Consumed(Option<Order>),
}

/// The first hitbox that covers a position.
pub open spec fn hit(hitboxes: Seq<Hitbox>, position: Vec2) -> Option<Hitbox>
    decreases hitboxes.len(),
{
    if hitboxes.len() == 0 {
        None
    } else if hitboxes.first().covers(position) {
        Some(hitboxes.first())
    } else {
        hit(hitboxes.drop_first(), position)
    }
}

/// The first hitbox that covers `position`.
fn find(hitboxes: &Vec<Hitbox>, position: Vec2) -> (found: Option<Hitbox>)
    ensures
        found == hit(hitboxes@, position),
        found matches Some(hitbox) ==> hitbox.covers(position),
{
    assert(hitboxes@.skip(0) =~= hitboxes@);
    for i in 0..hitboxes.len()
        invariant
            hit(hitboxes@, position) == hit(hitboxes@.skip(i as int), position),
    {
        assert(hitboxes@.skip(i as int).first() == hitboxes@[i as int]);
        assert(hitboxes@.skip(i as int).drop_first() =~= hitboxes@.skip(i + 1));
        if hitboxes[i].contains(position) {
            return Some(hitboxes[i]);
        }
    }
    None
}

/// What the mouse does at a position inside the view.
pub open spec fn moused(
    hitboxes: Seq<Hitbox>,
    position: Vec2,
    event: Mouse,
    deck: DeckModel,
) -> Reaction {
    match hit(hitboxes, position) {
        None => Reaction::Ignored,
        Some(hitbox) => match event {
            Mouse::LeftPress => Reaction::Consumed(clicked(hitbox, position, deck)),
            Mouse::WheelUp => Reaction::Consumed(
                Some(scrolled(hitbox.control, true, deck.volume as u16)),
            ),
            Mouse::WheelDown => Reaction::Consumed(
                Some(scrolled(hitbox.control, false, deck.volume as u16)),
            ),
            Mouse::Other => Reaction::Ignored,
        },
    }
}

/// What an event does to a view with these hitboxes.
pub open spec fn reaction(hitboxes: Seq<Hitbox>, event: Input, deck: DeckModel) -> Reaction {
    match event {
        Input::Char(c) if c == '/' => Reaction::OpenSearch,
        Input::Mouse { offset, position, event } => if position.x >= offset.x && position.y
            >= offset.y {
            moused(
                hitboxes,
                Vec2 { x: (position.x - offset.x) as usize, y: (position.y - offset.y) as usize },
                event,
                deck,
            )
        } else {
            Reaction::Ignored
        },
        _ => Reaction::Ignored,
    }
}

/// Take an event. `/` is the jump key elsewhere, but a single item dashboard has no list to
/// jump through, so it is free here and keeps its "search" meaning. Scrolling over a
/// control nudges it, rather than doing nothing.
pub fn on_event(hitboxes: &Vec<Hitbox>, event: Input, deck: &Deck) -> (taken: Reaction)
    ensures
        taken == reaction(hitboxes@, event, deck@),
{
    match event {
        Input::Char(c) => if c == '/' {
            Reaction::OpenSearch
        } else {
            Reaction::Ignored
        },
        Input::Mouse { offset, position, event } => match position.checked_sub(offset) {
            None => Reaction::Ignored,
            Some(inner) => match find(hitboxes, inner) {
                None => Reaction::Ignored,
                Some(hitbox) => match event {
                    Mouse::LeftPress => Reaction::Consumed(activate(hitbox, inner, deck)),
                    Mouse::WheelUp => Reaction::Consumed(
                        Some(scroll(hitbox.control, true, deck.volume)),
                    ),
                    Mouse::WheelDown => Reaction::Consumed(
                        Some(scroll(hitbox.control, false, deck.volume)),
                    ),
                    Mouse::Other => Reaction::Ignored,
                },
            },
        },
        _ => Reaction::Ignored,
    }
}

/// Where a "go to" command leads.
#[derive(Clone, Copy, PartialEq, Eq, Structural, Debug)]
pub enum GotoMode {
    Album,
    Artist,
}

/// A command, as far as the view tells commands apart.
#[derive(Clone, Copy, PartialEq, Eq, Structural, Debug)]
pub enum Command {
    Play,
    Queue,
    PlayNext,
    Save,
    SaveQueue,
    Add,
    Delete,
    Share,
    Open,
    Goto(GotoMode),
    ShowRecommendations,
    Move,
    Shift,
    Jump,
    Insert,
    Sort,
    Next,
    Previous,
    TogglePlay,
    /// Any other command.
    Other,
}

/// What a command comes down to. Every task but the first two is about the current item.
#[derive(Clone, Copy, PartialEq, Eq, Structural, Debug)]
pub enum Task {
    TogglePlayback,
    ShowSaveQueueDialog,
    Enqueue,
    PlayNext,
    Save,
    /// Ask which playlist the current track goes to.
    ShowAddDialog,
    Unsave,
    Share,
    /// Open the item, or its menu where it cannot be opened.
    Open,
    GotoAlbum,
    GotoArtist,
    ShowRecommendations,
}

/// What becomes of a command.
#[derive(Clone, Copy, PartialEq, Eq, Structural, Debug)]
pub enum Response {
    /// It is left to the default handlers.
    Ignored,
    /// It is used up, with nothing or something to do.
    Consumed(Option<Task>),
}

/// A task where something is playing, nothing where not.
pub open spec fn on_current(task: Task, current: Option<PlayableModel>) -> Response {
    Response::Consumed(
        if current is Some {
            Some(task)
        } else {
            None
        },
    )
}

/// What a command does when `current` is playing.
pub open spec fn response(command: Command, current: Option<PlayableModel>) -> Response {
    match command {
        Command::Play => Response::Consumed(Some(Task::TogglePlayback)),
        Command::SaveQueue => Response::Consumed(Some(Task::ShowSaveQueueDialog)),
        Command::Queue => on_current(Task::Enqueue, current),
        Command::PlayNext => on_current(Task::PlayNext, current),
        Command::Save => on_current(Task::Save, current),
        Command::Delete => on_current(Task::Unsave, current),
        Command::Share => on_current(Task::Share, current),
        Command::Open => on_current(Task::Open, current),
        Command::Goto(GotoMode::Album) => on_current(Task::GotoAlbum, current),
        Command::Goto(GotoMode::Artist) => on_current(Task::GotoArtist, current),
        Command::ShowRecommendations => on_current(Task::ShowRecommendations, current),
        Command::Add => Response::Consumed(
            if current matches Some(PlayableModel::Track(_)) {
                Some(Task::ShowAddDialog)
            } else {
                None
            },
        ),
        Command::Move | Command::Shift | Command::Jump | Command::Insert | Command::Sort
            => Response::Consumed(None),
        Command::Next | Command::Previous | Command::TogglePlay | Command::Other
            => Response::Ignored,
    }
}

/// Take a command. A single-item dashboard has no selection to move, search, sort, or
/// shift, so the list-only commands are successful no-ops and shared keybindings remain
/// quiet; what belongs to the player as a whole is ignored, so that its default handler
/// runs.
pub fn on_command(command: Command, current: &Option<Playable>) -> (taken: Response)
    ensures
        taken == response(command, crate::ui::now_playing::item(*current)),
{
    let task = match command {
        Command::Play => {
            return Response::Consumed(Some(Task::TogglePlayback));
        },
        Command::SaveQueue => {
            return Response::Consumed(Some(Task::ShowSaveQueueDialog));
        },
        Command::Move | Command::Shift | Command::Jump | Command::Insert | Command::Sort => {
            return Response::Consumed(None);
        },
        Command::Next | Command::Previous | Command::TogglePlay | Command::Other => {
            return Response::Ignored;
        },
        Command::Queue => Task::Enqueue,
        Command::PlayNext => Task::PlayNext,
        Command::Save => Task::Save,
        Command::Add => Task::ShowAddDialog,
        Command::Delete => Task::Unsave,
        Command::Share => Task::Share,
        Command::Open => Task::Open,
        Command::Goto(GotoMode::Album) => Task::GotoAlbum,
        Command::Goto(GotoMode::Artist) => Task::GotoArtist,
        Command::ShowRecommendations => Task::ShowRecommendations,
    };
    match current {
        None => Response::Consumed(None),
        Some(Playable::Episode(_)) => match command {
            // Only tracks can be put into a playlist.
            Command::Add => Response::Consumed(None),
            _ => Response::Consumed(Some(task)),
        },
        Some(Playable::Track(_)) => Response::Consumed(Some(task)),
    }
}

/// What the screen comes to show of a task.
#[derive(Clone, Copy, PartialEq, Eq, Structural, Debug)]
pub enum Shown {
    /// Nothing new.
    Nothing,
    /// The view that was found.
    View,
    /// The menu of the current item.
    Menu,
    /// The dialog that asks which playlist the track goes to.
    AddDialog,
    /// The dialog that asks under which name the queue is saved.
    SaveDialog,
}

/// Whether a task has to look something up before it can be done: a view of the item, its
/// album, its artists, what is like it, or the address to share.
pub open spec fn looked_for(task: Task) -> bool {
    task is Open || task is GotoAlbum || task is GotoArtist || task is ShowRecommendations
        || task is Share
}

/// What the screen comes to show of a task, when what it looks for was found or not.
pub open spec fn shown_of(task: Task, found: bool) -> Shown {
    match task {
        Task::Open => if found {
            Shown::View
        } else {
            Shown::Menu
        },
        Task::GotoAlbum | Task::GotoArtist | Task::ShowRecommendations => if found {
            Shown::View
        } else {
            Shown::Nothing
        },
        Task::ShowAddDialog => Shown::AddDialog,
        Task::ShowSaveQueueDialog => Shown::SaveDialog,
        _ => Shown::Nothing,
    }
}

/// What the screen comes to show of a task. `found` says whether there was what it looks for:
/// an item that cannot be opened shows its menu instead, and where there is no album, no
/// artist or nothing like the item, nothing is shown.
pub fn shown(task: Task, found: bool) -> (shown: Shown)
    ensures
        shown == shown_of(task, found),
{
    match task {
        Task::Open => if found {
            Shown::View
        } else {
            Shown::Menu
        },
        Task::GotoAlbum | Task::GotoArtist | Task::ShowRecommendations => if found {
            Shown::View
        } else {
            Shown::Nothing
        },
        Task::ShowAddDialog => Shown::AddDialog,
        Task::ShowSaveQueueDialog => Shown::SaveDialog,
        _ => Shown::Nothing,
    }
}

/// Whether a task is carried out on the player, the queue, the library or the clipboard.
/// Sharing needs an address to share.
pub open spec fn carried_out(task: Task, found: bool) -> bool {
    match task {
        Task::TogglePlayback | Task::Enqueue | Task::PlayNext | Task::Save | Task::Unsave => true,
        Task::Share => found,
        _ => false,
    }
}

/// Whether a task is carried out on the player, the queue, the library or the clipboard.
/// Sharing needs an address to share.
pub fn acts(task: Task, found: bool) -> (act: bool)
    ensures
        act == carried_out(task, found),
{
    match task {
        Task::TogglePlayback | Task::Enqueue | Task::PlayNext | Task::Save | Task::Unsave => true,
        Task::Share => found,
        _ => false,
    }
}

/// The artist that a "go to" command leads to: the first one of the item, where it has any.
pub fn first_artist<A>(artists: Option<Vec<A>>) -> (artist: Option<A>)
    ensures
        artist == (match artists {
            Some(artists) if artists@.len() > 0 => Some(artists@[0]),
            _ => None,
        }),
        artists matches Some(list) ==> list@.len() > 0 ==> artist == Some(list@.first()),
        artist is None <==> artists is None || artists->0@.len() == 0,
{
    match artists {
        Some(artists) => {
            let mut artists = artists;
            if artists.len() > 0 {
                Some(artists.remove(0))
            } else {
                None
            }
        },
        None => None,
    }
}

/// A task is never both shown and carried out, and nothing comes of one only where what it
/// looks for was not found.
pub proof fn law_a_task_is_shown_or_carried_out(task: Task, found: bool)
    ensures
        !(shown_of(task, found) != Shown::Nothing && carried_out(task, found)),
        shown_of(task, found) == Shown::Nothing && !carried_out(task, found) ==> looked_for(task)
            && !found && task != Task::Open,
        !looked_for(task) ==> shown_of(task, true) == shown_of(task, false) && carried_out(
            task,
            true,
        ) == carried_out(task, false),
{
}

/// The repeat control goes round: three clicks lead back to where they began, and no fewer.
pub proof fn law_repeat_goes_round(repeat: RepeatSetting)
    ensures
        next_repeat(next_repeat(next_repeat(repeat))) == repeat,
        next_repeat(repeat) != repeat,
        next_repeat(next_repeat(repeat)) != repeat,
{
}

/// A click on the first cell of the progress bar or of the volume meter goes to the very
/// start of the range, a click on the last to the very end.
pub proof fn law_the_ends_of_a_meter_are_the_ends_of_its_range(total: nat, whole: nat)
    requires
        whole > 0,
    ensures
        nearest_share(total, 0, whole) == 0,
        nearest_share(total, whole, whole) == total,
{
    assert(whole / (2 * whole) == 0) by (nonlinear_arith)
        requires
            whole > 0,
    ;
    assert(2 * total * 0 == 0) by (nonlinear_arith);
    assert((2 * total * whole + whole) / (2 * whole) == total) by (nonlinear_arith)
        requires
            whole > 0,
    ;
}

/// The further along a meter the click, the further along the range it goes.
pub proof fn law_clicks_keep_their_order(total: nat, one: nat, other: nat, whole: nat)
    requires
        one <= other,
        whole > 0,
    ensures
        nearest_share(total, one, whole) <= nearest_share(total, other, whole),
{
    assert(2 * total * one <= 2 * total * other) by (nonlinear_arith)
        requires
            one <= other,
    ;
    vstd::arithmetic::div_mod::lemma_div_is_ordered(
        (2 * total * one + whole) as int,
        (2 * total * other + whole) as int,
        (2 * whole) as int,
    );
}

/// One notch of the wheel over the volume moves it by a hundredth of its range in the
/// direction of the wheel, and by less only where the range ends: it is then at that end.
pub proof fn law_a_notch_moves_the_volume_by_one_percent(volume: u16)
    ensures
        scrolled(Control::Volume, true, volume) matches Order::SetVolume(louder) && volume
            <= louder <= volume + 0xffffint / 100 && (volume + 0xffffint / 100 <= 0xffff ==> louder
            == volume + 0xffffint / 100) && (volume + 0xffffint / 100 > 0xffff ==> louder == 0xffff),
        scrolled(Control::Volume, false, volume) matches Order::SetVolume(softer) && volume
            - 0xffffint / 100 <= softer <= volume && (volume >= 0xffffint / 100 ==> softer == volume
            - 0xffffint / 100) && (volume < 0xffffint / 100 ==> softer == 0),
{
}

/// Away from the ends of the range, a notch up and a notch down cancel, in either order.
pub proof fn law_notches_cancel(volume: u16, louder: u16, softer: u16)
    requires
        volume >= 0xffffint / 100,
        volume + 0xffffint / 100 <= 0xffff,
        scrolled(Control::Volume, true, volume) == Order::SetVolume(louder),
        scrolled(Control::Volume, false, volume) == Order::SetVolume(softer),
    ensures
        softer < volume < louder,
        scrolled(Control::Volume, false, louder) == Order::SetVolume(volume),
        scrolled(Control::Volume, true, softer) == Order::SetVolume(volume),
{
}

/// Over anything but the volume, the wheel goes five seconds through the item: back when it
/// is turned up, and on by as much when it is turned down.
pub proof fn law_the_wheel_seeks_both_ways(control: Control, volume: u16)
    requires
        control != Control::Volume,
    ensures
        scrolled(control, true, volume) matches Order::SeekRelative(back) && scrolled(
            control,
            false,
            volume,
        ) matches Order::SeekRelative(on) && back < 0 < on && back + on == 0 && on == 5 * 1000,
{
}

/// What is shared out is within half a unit of the exact share.
pub proof fn law_a_share_is_the_nearest(total: nat, part: nat, whole: nat)
    requires
        whole > 0,
    ensures
        -whole <= 2 * (nearest_share(total, part, whole) * whole - total * part) <= whole,
{
    let doubled = 2 * total * part + whole;
    let share = nearest_share(total, part, whole);
    vstd::arithmetic::div_mod::lemma_fundamental_div_mod(doubled as int, (2 * whole) as int);
    vstd::arithmetic::div_mod::lemma_mod_bound(doubled as int, (2 * whole) as int);
    assert((2 * whole) * share == 2 * (share * whole)) by (nonlinear_arith);
    assert(2 * total * part == 2 * (total * part)) by (nonlinear_arith);
}

/// A click on the progress bar goes to the moment that its cell stands for, and one on the
/// volume meter to the volume that its cell stands for: the first cell is the start of the
/// range and the last cell its end, and what lies between is shared out evenly, to the
/// nearest unit. A single cell is the start.
pub proof fn law_a_click_lands_where_it_points(hitbox: Hitbox, position: Vec2, deck: DeckModel)
    requires
        hitbox.covers(position),
    ensures
        hitbox.control == Control::Volume ==> (clicked(hitbox, position, deck) matches Some(
            Order::SetVolume(volume),
        ) && (hitbox.width > 1 ==> -(hitbox.width - 1) <= 2 * (volume * (hitbox.width - 1) - 0xffff
            * (position.x - hitbox.start)) <= hitbox.width - 1) && (position.x == hitbox.start
            ==> volume == 0) && (hitbox.width > 1 && position.x == hitbox.start + hitbox.width - 1
            ==> volume == 0xffff)),
        hitbox.control == Control::Seek && deck.current is None ==> clicked(hitbox, position, deck)
            is None,
        hitbox.control == Control::Seek ==> (deck.current matches Some(playable) ==> (clicked(
            hitbox,
            position,
            deck,
        ) matches Some(Order::Seek(moment)) && (hitbox.width > 1 ==> -(hitbox.width - 1) <= 2 * (
        moment * (hitbox.width - 1) - playable.duration() * (position.x - hitbox.start))
            <= hitbox.width - 1) && (position.x == hitbox.start ==> moment == 0) && (hitbox.width
            > 1 && position.x == hitbox.start + hitbox.width - 1 ==> moment
            == playable.duration()))),
{
    let (part, whole) = parts(hitbox, position);
    lemma_share_in_range(0xffff, part, whole);
    law_a_share_is_the_nearest(0xffff, part, whole);
    law_the_ends_of_a_meter_are_the_ends_of_its_range(0xffff, whole);
    if let Some(playable) = deck.current {
        lemma_share_in_range(playable.duration() as nat, part, whole);
        law_a_share_is_the_nearest(playable.duration() as nat, part, whole);
        law_the_ends_of_a_meter_are_the_ends_of_its_range(playable.duration() as nat, whole);
    }
}

proof fn lemma_share_in_range(total: nat, part: nat, whole: nat)
    requires
        part <= whole,
        whole > 0,
    ensures
        nearest_share(total, part, whole) <= total,
{
    law_clicks_keep_their_order(total, part, whole, whole);
    law_the_ends_of_a_meter_are_the_ends_of_its_range(total, whole);
}

/// The previous button leads to the previous item within the first five seconds of one and
/// to its start from there on, the next button always leads on, and the one between them
/// always starts or stops; where in a button the click lands does not matter.
pub proof fn law_buttons_do_what_they_show(hitbox: Hitbox, position: Vec2, deck: DeckModel)
    ensures
        hitbox.control == Control::Previous ==> (clicked(hitbox, position, deck) == Some(
            Order::Previous,
        ) <==> deck.progress_ms < 5 * 1000) && (clicked(hitbox, position, deck) == Some(
            Order::Seek(0),
        ) <==> deck.progress_ms >= 5 * 1000),
        hitbox.control == Control::Next <==> clicked(hitbox, position, deck) == Some(Order::Next),
        hitbox.control == Control::PlayPause <==> clicked(hitbox, position, deck) == Some(
            Order::TogglePlayback,
        ),
        hitbox.control != Control::Previous ==> clicked(hitbox, position, deck) != Some(
            Order::Previous,
        ),
{
}

/// A click on a toggle always changes it: shuffling is turned over, and repeating goes from
/// nothing to the whole queue, to the one item, and back to nothing.
pub proof fn law_a_toggle_turns_over(hitbox: Hitbox, position: Vec2, deck: DeckModel)
    ensures
        hitbox.control == Control::Shuffle <==> clicked(hitbox, position, deck) is Some && clicked(
            hitbox,
            position,
            deck,
        )->0 is SetShuffle,
        hitbox.control == Control::Shuffle ==> clicked(hitbox, position, deck) != Some(
            Order::SetShuffle(deck.shuffle),
        ),
        hitbox.control == Control::Repeat <==> clicked(hitbox, position, deck) is Some && clicked(
            hitbox,
            position,
            deck,
        )->0 is SetRepeat,
        hitbox.control == Control::Repeat ==> (clicked(hitbox, position, deck) == Some(
            Order::SetRepeat(RepeatSetting::RepeatPlaylist),
        ) <==> deck.repeat == RepeatSetting::Off),
        hitbox.control == Control::Repeat ==> (clicked(hitbox, position, deck) == Some(
            Order::SetRepeat(RepeatSetting::RepeatTrack),
        ) <==> deck.repeat == RepeatSetting::RepeatPlaylist),
        hitbox.control == Control::Repeat ==> (clicked(hitbox, position, deck) == Some(
            Order::SetRepeat(RepeatSetting::Off),
        ) <==> deck.repeat == RepeatSetting::RepeatTrack),
{
}

proof fn lemma_hit(hitboxes: Seq<Hitbox>, position: Vec2)
    ensures
        hit(hitboxes, position) is None <==> forall|i: int|
            0 <= i < hitboxes.len() ==> !(#[trigger] hitboxes[i]).covers(position),
        hit(hitboxes, position) matches Some(found) ==> exists|i: int|
            0 <= i < hitboxes.len() && #[trigger] hitboxes[i] == found && found.covers(position)
                && forall|j: int| 0 <= j < i ==> !(#[trigger] hitboxes[j]).covers(position),
    decreases hitboxes.len(),
{
    if hitboxes.len() > 0 {
        let rest = hitboxes.drop_first();
        lemma_hit(rest, position);
        if hitboxes.first().covers(position) {
            assert(hitboxes[0] == hitboxes.first());
        } else {
            assert(forall|i: int| 0 <= i < rest.len() ==> rest[i] == hitboxes[i + 1]);
            match hit(rest, position) {
                None => {
                    assert forall|i: int| 0 <= i < hitboxes.len() implies !(
                    #[trigger] hitboxes[i]).covers(position) by {
                        if i > 0 {
                            assert(rest[i - 1] == hitboxes[i]);
                        }
                    }
                },
                Some(found) => {
                    let i = choose|i: int|
                        0 <= i < rest.len() && #[trigger] rest[i] == found && found.covers(
                            position,
                        ) && forall|j: int| 0 <= j < i ==> !(#[trigger] rest[j]).covers(position);
                    assert(hitboxes[i + 1] == found);
                    assert forall|j: int| 0 <= j < i + 1 implies !(#[trigger] hitboxes[j]).covers(
                        position,
                    ) by {
                        if j > 0 {
                            assert(rest[j - 1] == hitboxes[j]);
                        }
                    }
                },
            }
        }
    }
}

/// The mouse reaches the control under it: the first hitbox that covers the cell, counted
/// from the first cell of the view, is the one that is clicked or scrolled. Where none does,
/// the event is left to others, and so is anything the mouse does before that first cell.
pub proof fn law_the_mouse_reaches_what_is_under_it(
    hitboxes: Seq<Hitbox>,
    i: int,
    offset: Vec2,
    position: Vec2,
    inner: Vec2,
    deck: DeckModel,
)
    requires
        position.x == offset.x + inner.x,
        position.y == offset.y + inner.y,
        deck.volume <= u16::MAX,
    ensures
        0 <= i < hitboxes.len() && hitboxes[i].covers(inner) && (forall|j: int|
            0 <= j < i ==> !(#[trigger] hitboxes[j]).covers(inner)) ==> {
            &&& reaction(
                hitboxes,
                Input::Mouse { offset, position, event: Mouse::LeftPress },
                deck,
            ) == Reaction::Consumed(clicked(hitboxes[i], inner, deck))
            &&& reaction(
                hitboxes,
                Input::Mouse { offset, position, event: Mouse::WheelUp },
                deck,
            ) == Reaction::Consumed(Some(scrolled(hitboxes[i].control, true, deck.volume as u16)))
            &&& reaction(
                hitboxes,
                Input::Mouse { offset, position, event: Mouse::WheelDown },
                deck,
            ) == Reaction::Consumed(Some(scrolled(hitboxes[i].control, false, deck.volume as u16)))
            &&& reaction(hitboxes, Input::Mouse { offset, position, event: Mouse::Other }, deck)
                == Reaction::Ignored
        },
        (forall|j: int| 0 <= j < hitboxes.len() ==> !(#[trigger] hitboxes[j]).covers(inner)) ==> (
        forall|event: Mouse|
            #[trigger] reaction(hitboxes, Input::Mouse { offset, position, event }, deck)
                == Reaction::Ignored),
{
    lemma_hit(hitboxes, inner);
    assert(inner == (Vec2 {
        x: (position.x - offset.x) as usize,
        y: (position.y - offset.y) as usize,
    }));
    if 0 <= i < hitboxes.len() && hitboxes[i].covers(inner) && (forall|j: int|
        0 <= j < i ==> !(#[trigger] hitboxes[j]).covers(inner)) {
        let found = hit(hitboxes, inner)->0;
        let k = choose|k: int|
            0 <= k < hitboxes.len() && #[trigger] hitboxes[k] == found && found.covers(inner)
                && forall|j: int| 0 <= j < k ==> !(#[trigger] hitboxes[j]).covers(inner);
        assert(k == i) by {
            if k < i {
                assert(!hitboxes[k].covers(inner));
            } else if i < k {
                assert(!hitboxes[i].covers(inner));
            }
        }
    }
}

/// A slash opens the search, and nothing else does; whatever is not a slash or the mouse
/// inside the view is left to others.
pub proof fn law_only_a_slash_opens_the_search(
    hitboxes: Seq<Hitbox>,
    event: Input,
    deck: DeckModel,
)
    ensures
        reaction(hitboxes, event, deck) == Reaction::OpenSearch <==> event == Input::Char('/'),
        !(event is Mouse) && event != Input::Char('/') ==> reaction(hitboxes, event, deck)
            == Reaction::Ignored,
        event matches Input::Mouse { offset, position, .. } && (position.x < offset.x || position.y
            < offset.y) ==> reaction(hitboxes, event, deck) == Reaction::Ignored,
{
}

/// Each task about the current item comes from one command, and only while there is one; a
/// track is all that can be put into a playlist. Playing and saving the queue need no item.
pub proof fn law_each_task_has_its_command(command: Command, current: Option<PlayableModel>)
    ensures
        ({
            let taken = response(command, current);
            let some = current is Some;
            &&& taken == Response::Consumed(Some(Task::TogglePlayback)) <==> command == Command::Play
            &&& taken == Response::Consumed(Some(Task::ShowSaveQueueDialog)) <==> command
                == Command::SaveQueue
            &&& taken == Response::Consumed(Some(Task::Enqueue)) <==> some && command
                == Command::Queue
            &&& taken == Response::Consumed(Some(Task::PlayNext)) <==> some && command
                == Command::PlayNext
            &&& taken == Response::Consumed(Some(Task::Save)) <==> some && command == Command::Save
            &&& taken == Response::Consumed(Some(Task::Unsave)) <==> some && command
                == Command::Delete
            &&& taken == Response::Consumed(Some(Task::Share)) <==> some && command
                == Command::Share
            &&& taken == Response::Consumed(Some(Task::Open)) <==> some && command == Command::Open
            &&& taken == Response::Consumed(Some(Task::GotoAlbum)) <==> some && command
                == Command::Goto(GotoMode::Album)
            &&& taken == Response::Consumed(Some(Task::GotoArtist)) <==> some && command
                == Command::Goto(GotoMode::Artist)
            &&& taken == Response::Consumed(Some(Task::ShowRecommendations)) <==> some && command
                == Command::ShowRecommendations
            &&& taken == Response::Consumed(Some(Task::ShowAddDialog)) <==> command == Command::Add
                && some && current->0 is Track
            &&& taken == Response::Ignored <==> command == Command::Next || command
                == Command::Previous || command == Command::TogglePlay || command == Command::Other
        }),
{
}

/// A view is shown exactly for a task that looks for one and finds it; only opening has
/// something else to show where it does not. Only sharing waits for what it looks for before
/// it acts.
pub proof fn law_a_view_is_shown_where_one_was_found(task: Task, found: bool)
    ensures
        shown_of(task, found) == Shown::View <==> found && (task == Task::Open || task
            == Task::GotoAlbum || task == Task::GotoArtist || task == Task::ShowRecommendations),
        shown_of(task, found) == Shown::Menu <==> !found && task == Task::Open,
        shown_of(task, found) == Shown::AddDialog <==> task == Task::ShowAddDialog,
        shown_of(task, found) == Shown::SaveDialog <==> task == Task::ShowSaveQueueDialog,
        carried_out(task, found) != carried_out(task, !found) <==> task == Task::Share,
        carried_out(Task::Share, found) == found,
{
}

} // verus!
