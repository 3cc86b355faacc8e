//! What is played, and what the player reports.

use vstd::prelude::*;

use crate::text;

verus! {

/// The characters of a text that may be missing.
pub open spec fn optional_text(text: Option<String>) -> Option<Seq<char>> {
    match text {
        Some(text) => Some(text@),
        None => None,
    }
}

/// A copy of a text that may be missing.
pub fn copy_optional(text: &Option<String>) -> (copy: Option<String>)
    ensures
        optional_text(copy) == optional_text(*text),
{
    match text {
        Some(text) => Some(text.clone()),
        None => None,
    }
}

/// A copy of a list of texts.
pub fn copy_texts(list: &Vec<String>) -> (copy: Vec<String>)
    ensures
        text::texts(copy@) == text::texts(list@),
{
    let mut copy: Vec<String> = Vec::new();
    for i in 0..list.len()
        invariant
            text::texts(copy@) == text::texts(list@).take(i as int),
    {
        let ghost before = copy@;
        copy.push(list[i].clone());
        assert(text::texts(copy@) =~= text::texts(before).push(list@[i as int]@));
        assert(text::texts(copy@) =~= text::texts(list@).take(i + 1));
    }
    assert(text::texts(copy@) =~= text::texts(list@));
    copy
}

/// A track of the catalogue or of the saved library.
#[derive(Debug)]
pub struct Track {
    pub id: Option<String>,
    pub uri: String,
    pub title: String,
    pub track_number: u32,
    pub disc_number: i32,
    /// In milliseconds.
    pub duration: u32,
    pub artists: Vec<String>,
    pub artist_ids: Vec<String>,
    pub album: Option<String>,
    pub album_id: Option<String>,
    pub album_artists: Vec<String>,
    pub cover_url: Option<String>,
    pub url: String,
    /// When the track was saved, in milliseconds since the Unix epoch.
    pub added_at: Option<i64>,
    pub list_index: usize,
    pub is_local: bool,
    pub is_playable: Option<bool>,
}

/// A [`Track`] as the contracts speak of it.
#[verifier::ext_equal]
pub struct TrackModel {
    pub id: Option<Seq<char>>,
    pub uri: Seq<char>,
    pub title: Seq<char>,
    pub track_number: u32,
    pub disc_number: i32,
    pub duration: u32,
    pub artists: Seq<Seq<char>>,
    pub artist_ids: Seq<Seq<char>>,
    pub album: Option<Seq<char>>,
    pub album_id: Option<Seq<char>>,
    pub album_artists: Seq<Seq<char>>,
    pub cover_url: Option<Seq<char>>,
    pub url: Seq<char>,
    pub added_at: Option<i64>,
    pub list_index: usize,
    pub is_local: bool,
    pub is_playable: Option<bool>,
}

impl View for Track {
    type V = TrackModel;

    open spec fn view(&self) -> TrackModel {
        TrackModel {
            id: optional_text(self.id),
            uri: self.uri@,
            title: self.title@,
            track_number: self.track_number,
            disc_number: self.disc_number,
            duration: self.duration,
            artists: text::texts(self.artists@),
            artist_ids: text::texts(self.artist_ids@),
            album: optional_text(self.album),
            album_id: optional_text(self.album_id),
            album_artists: text::texts(self.album_artists@),
            cover_url: optional_text(self.cover_url),
            url: self.url@,
            added_at: self.added_at,
            list_index: self.list_index,
            is_local: self.is_local,
            is_playable: self.is_playable,
        }
    }
}

impl Clone for Track {
    fn clone(&self) -> (copy: Self)
        ensures
            copy@ == self@,
    {
        Track {
            id: copy_optional(&self.id),
            uri: self.uri.clone(),
            title: self.title.clone(),
            track_number: self.track_number,
            disc_number: self.disc_number,
            duration: self.duration,
            artists: copy_texts(&self.artists),
            artist_ids: copy_texts(&self.artist_ids),
            album: copy_optional(&self.album),
            album_id: copy_optional(&self.album_id),
            album_artists: copy_texts(&self.album_artists),
            cover_url: copy_optional(&self.cover_url),
            url: self.url.clone(),
            added_at: self.added_at,
            list_index: self.list_index,
            is_local: self.is_local,
            is_playable: self.is_playable,
        }
    }
}

/// The tracks of a list.
pub open spec fn track_models(tracks: Seq<Track>) -> Seq<TrackModel> {
    tracks.map_values(|track: Track| track@)
}

/// A copy of a list of tracks.
pub fn copy_tracks(tracks: &Vec<Track>) -> (copy: Vec<Track>)
    ensures
        track_models(copy@) == track_models(tracks@),
{
    let mut copy: Vec<Track> = Vec::new();
    for i in 0..tracks.len()
        invariant
            track_models(copy@) == track_models(tracks@).take(i as int),
    {
        let ghost before = copy@;
        copy.push(tracks[i].clone());
        assert(track_models(copy@) =~= track_models(before).push(tracks@[i as int]@));
        assert(track_models(copy@) =~= track_models(tracks@).take(i + 1));
    }
    assert(track_models(copy@) =~= track_models(tracks@));
    copy
}

/// An episode of a podcast.
#[derive(Debug)]
pub struct Episode {
    pub id: String,
    pub uri: String,
    pub name: String,
    /// In milliseconds.
    pub duration: u32,
    pub release_date: String,
    pub cover_url: Option<String>,
}

/// An [`Episode`] as the contracts speak of it.
#[verifier::ext_equal]
pub struct EpisodeModel {
    pub id: Seq<char>,
    pub uri: Seq<char>,
    pub name: Seq<char>,
    pub duration: u32,
    pub release_date: Seq<char>,
    pub cover_url: Option<Seq<char>>,
}

impl View for Episode {
    type V = EpisodeModel;

    open spec fn view(&self) -> EpisodeModel {
        EpisodeModel {
            id: self.id@,
            uri: self.uri@,
            name: self.name@,
            duration: self.duration,
            release_date: self.release_date@,
            cover_url: optional_text(self.cover_url),
        }
    }
}

/// Something that can be played.
#[derive(Debug)]
pub enum Playable {
    Track(Track),
    Episode(Episode),
}

/// A [`Playable`] as the contracts speak of it.
#[verifier::ext_equal]
pub enum PlayableModel {
    Track(TrackModel),
    Episode(EpisodeModel),
}

impl View for Playable {
    type V = PlayableModel;

    open spec fn view(&self) -> PlayableModel {
        match self {
            Playable::Track(track) => PlayableModel::Track(track@),
            Playable::Episode(episode) => PlayableModel::Episode(episode@),
        }
    }
}

impl PlayableModel {
    pub open spec fn id(self) -> Option<Seq<char>> {
        match self {
            PlayableModel::Track(track) => track.id,
            PlayableModel::Episode(episode) => Some(episode.id),
        }
    }

    pub open spec fn duration(self) -> u32 {
        match self {
            PlayableModel::Track(track) => track.duration,
            PlayableModel::Episode(episode) => episode.duration,
        }
    }

    pub open spec fn cover_url(self) -> Option<Seq<char>> {
        match self {
            PlayableModel::Track(track) => track.cover_url,
            PlayableModel::Episode(episode) => episode.cover_url,
        }
    }
}

impl Playable {
    /// What identifies the item, where anything does: a local file has no id.
    pub fn id(&self) -> (id: Option<String>)
        ensures
            optional_text(id) == self@.id(),
    {
        match self {
            Playable::Track(track) => copy_optional(&track.id),
            Playable::Episode(episode) => Some(episode.id.clone()),
        }
    }

    /// The length of the item in milliseconds.
    pub fn duration(&self) -> (duration: u32)
        ensures
            duration == self@.duration(),
    {
        match self {
            Playable::Track(track) => track.duration,
            Playable::Episode(episode) => episode.duration,
        }
    }

    /// The length of the item as a time on a clock.
    pub fn duration_str(&self) -> (label: String)
        ensures
            label@ == text::clock_face(self@.duration() as nat),
    {
        text::ms_to_hms(self.duration())
    }

    /// Where the cover of the item is found.
    pub fn cover_url(&self) -> (url: Option<String>)
        ensures
            optional_text(url) == self@.cover_url(),
    {
        match self {
            Playable::Track(track) => copy_optional(&track.cover_url),
            Playable::Episode(episode) => copy_optional(&episode.cover_url),
        }
    }
}

/// What the player reports. Times are in nanoseconds.
#[derive(Clone, Copy, PartialEq, Eq, Structural, Debug)]
pub enum PlayerEvent {
    /// Playing since this moment of the wall clock.
    Playing(u128),
    /// Paused this far into the item.
    Paused(u128),
    Stopped,
    FinishedTrack,
}

impl PlayerEvent {
    /// Whether something is playing right now.
    pub fn is_playing(&self) -> (playing: bool)
        ensures
            playing == (*self is Playing),
    {
        match self {
            PlayerEvent::Playing(_) => true,
            _ => false,
        }
    }
}

/// What happens at the end of an item or of the queue.
#[derive(Clone, Copy, PartialEq, Eq, Structural, Debug)]
pub enum RepeatSetting {
    Off,
    RepeatPlaylist,
    RepeatTrack,
}

/// One percent of the range of the volume.
pub const VOLUME_PERCENT: u16 = 655;

/// Something that the player or the queue is asked to do.
#[derive(Clone, Copy, PartialEq, Eq, Structural, Debug)]
pub enum Order {
    /// Go to this millisecond of the current item.
    Seek(u32),
    /// Move by so many milliseconds.
    SeekRelative(i32),
    /// Set the volume, out of `u16::MAX`.
    SetVolume(u16),
    TogglePlayback,
    Previous,
    Next,
    SetRepeat(RepeatSetting),
    SetShuffle(bool),
}

/// An item is known by what its track or its episode is known by; an episode always has an
/// id, and a track of a local file has none.
pub proof fn law_an_item_is_known_by_what_it_is(playable: PlayableModel)
    ensures
        playable matches PlayableModel::Track(track) ==> playable.id() == track.id
            && playable.duration() == track.duration && playable.cover_url() == track.cover_url,
        playable matches PlayableModel::Episode(episode) ==> playable.id() == Some(episode.id)
            && playable.duration() == episode.duration && playable.cover_url()
            == episode.cover_url,
{
}

} // verus!
