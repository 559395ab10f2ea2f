//! The library's data: tracks, playlists and the playback state shown to every window.
use vstd::prelude::*;

use crate::text::str_equal;

verus! {

/// A track of the library.
#[derive(Clone, Debug, PartialEq, Eq)]
pub struct MediaItem {
    pub id: String,
    pub provider: String,
    pub source_url: Option<String>,
    pub title: String,
    pub artist: String,
    pub album: Option<String>,
    pub album_artist: Option<String>,
    pub track_number: Option<u32>,
    pub disc_number: Option<u32>,
    pub release_date: Option<String>,
    pub upload_date: Option<String>,
    pub description: Option<String>,
    pub channel: Option<String>,
    pub channel_id: Option<String>,
    pub uploader: Option<String>,
    pub uploader_id: Option<String>,
    pub thumbnail_url: Option<String>,
    pub label: Option<String>,
    pub genres: Vec<String>,
    pub categories: Vec<String>,
    pub tags: Vec<String>,
    pub language: Option<String>,
    pub availability: Option<String>,
    pub is_live: bool,
    pub view_count: Option<u64>,
    pub like_count: Option<u64>,
    pub duration_ms: u64,
    pub metadata_dirty: bool,
    pub play_count: u64,
    pub last_played_at_ms: Option<u64>,
    pub play_history_ms: Vec<u64>,
}

/// The mathematical value of a track: every field, strings as character sequences.
pub struct MediaItemView {
    pub id: Seq<char>,
    pub provider: Seq<char>,
    pub source_url: Option<Seq<char>>,
    pub title: Seq<char>,
    pub artist: Seq<char>,
    pub album: Option<Seq<char>>,
    pub album_artist: Option<Seq<char>>,
    pub track_number: Option<u32>,
    pub disc_number: Option<u32>,
    pub release_date: Option<Seq<char>>,
    pub upload_date: Option<Seq<char>>,
    pub description: Option<Seq<char>>,
    pub channel: Option<Seq<char>>,
    pub channel_id: Option<Seq<char>>,
    pub uploader: Option<Seq<char>>,
    pub uploader_id: Option<Seq<char>>,
    pub thumbnail_url: Option<Seq<char>>,
    pub label: Option<Seq<char>>,
    pub genres: Seq<Seq<char>>,
    pub categories: Seq<Seq<char>>,
    pub tags: Seq<Seq<char>>,
    pub language: Option<Seq<char>>,
    pub availability: Option<Seq<char>>,
    pub is_live: bool,
    pub view_count: Option<u64>,
    pub like_count: Option<u64>,
    pub duration_ms: u64,
    pub metadata_dirty: bool,
    pub play_count: u64,
    pub last_played_at_ms: Option<u64>,
    pub play_history_ms: Seq<u64>,
}

impl View for MediaItem {
    type V = MediaItemView;

    open spec fn view(&self) -> MediaItemView {
        MediaItemView {
            id: self.id@,
            provider: self.provider@,
            source_url: self.source_url.deep_view(),
            title: self.title@,
            artist: self.artist@,
            album: self.album.deep_view(),
            album_artist: self.album_artist.deep_view(),
            track_number: self.track_number,
            disc_number: self.disc_number,
            release_date: self.release_date.deep_view(),
            upload_date: self.upload_date.deep_view(),
            description: self.description.deep_view(),
            channel: self.channel.deep_view(),
            channel_id: self.channel_id.deep_view(),
            uploader: self.uploader.deep_view(),
            uploader_id: self.uploader_id.deep_view(),
            thumbnail_url: self.thumbnail_url.deep_view(),
            label: self.label.deep_view(),
            genres: self.genres.deep_view(),
            categories: self.categories.deep_view(),
            tags: self.tags.deep_view(),
            language: self.language.deep_view(),
            availability: self.availability.deep_view(),
            is_live: self.is_live,
            view_count: self.view_count,
            like_count: self.like_count,
            duration_ms: self.duration_ms,
            metadata_dirty: self.metadata_dirty,
            play_count: self.play_count,
            last_played_at_ms: self.last_played_at_ms,
            play_history_ms: self.play_history_ms@,
        }
    }
}

/// The availability value of a track whose provider denied access to the current session.
pub open spec fn unavailable_marker() -> Seq<char> {
    "subscriber_only_unavailable"@
}

/// A track can be played unless the provider confirmed that access is denied.
pub open spec fn item_available(item: MediaItemView) -> bool {
    !(item.availability == Some(unavailable_marker()))
}

/// Copies an optional string.
pub fn clone_opt_string(value: &Option<String>) -> (res: Option<String>)
    ensures
        res.deep_view() == value.deep_view(),
{
    match value {
        Some(s) => Some(s.clone()),
        None => None,
    }
}

/// Copies a list of strings.
pub fn clone_strings(values: &Vec<String>) -> (res: Vec<String>)
    ensures
        res.deep_view() == values.deep_view(),
{
    let mut res: Vec<String> = Vec::new();
    let mut i: usize = 0;
    while i < values.len()
        invariant
            i <= values.len(),
            res@.len() == i,
            forall|j: int| 0 <= j < i ==> res@[j]@ == values@[j]@,
        decreases values.len() - i,
    {
        res.push(values[i].clone());
        i = i + 1;
    }
    assert(res.deep_view() =~= values.deep_view());
    res
}

/// Copies a list of numbers.
pub fn clone_numbers(values: &Vec<u64>) -> (res: Vec<u64>)
    ensures
        res@ == values@,
{
    let mut res: Vec<u64> = Vec::new();
    let mut i: usize = 0;
    while i < values.len()
        invariant
            i <= values.len(),
            res@ =~= values@.take(i as int),
        decreases values.len() - i,
    {
        res.push(values[i]);
        i = i + 1;
    }
    assert(values@.take(values.len() as int) =~= values@);
    res
}

impl MediaItem {
    /// Copies the track.
    pub fn duplicate(&self) -> (res: MediaItem)
        ensures
            res@ == self@,
    {
        MediaItem {
            id: self.id.clone(),
            provider: self.provider.clone(),
            source_url: clone_opt_string(&self.source_url),
            title: self.title.clone(),
            artist: self.artist.clone(),
            album: clone_opt_string(&self.album),
            album_artist: clone_opt_string(&self.album_artist),
            track_number: self.track_number,
            disc_number: self.disc_number,
            release_date: clone_opt_string(&self.release_date),
            upload_date: clone_opt_string(&self.upload_date),
            description: clone_opt_string(&self.description),
            channel: clone_opt_string(&self.channel),
            channel_id: clone_opt_string(&self.channel_id),
            uploader: clone_opt_string(&self.uploader),
            uploader_id: clone_opt_string(&self.uploader_id),
            thumbnail_url: clone_opt_string(&self.thumbnail_url),
            label: clone_opt_string(&self.label),
            genres: clone_strings(&self.genres),
            categories: clone_strings(&self.categories),
            tags: clone_strings(&self.tags),
            language: clone_opt_string(&self.language),
            availability: clone_opt_string(&self.availability),
            is_live: self.is_live,
            view_count: self.view_count,
            like_count: self.like_count,
            duration_ms: self.duration_ms,
            metadata_dirty: self.metadata_dirty,
            play_count: self.play_count,
            last_played_at_ms: self.last_played_at_ms,
            play_history_ms: clone_numbers(&self.play_history_ms),
        }
    }

    /// Whether the track can be played: only a confirmed provider access denial hides it.
    pub fn is_available(&self) -> (r: bool)
        ensures
            r == item_available(self@),
    {
        match &self.availability {
            Some(value) => {
                let marker = "subscriber_only_unavailable";
                proof {
                    reveal_strlit("subscriber_only_unavailable");
                }
                !str_equal(value.as_str(), marker)
            },
            None => true,
        }
    }
}

/// The provider that a track comes from when its record names none.
pub fn default_provider() -> (res: String)
    ensures
        res@ == "youtube"@,
{
    String::from_str("youtube")
}


/// A named, ordered list of library tracks.
#[derive(Clone, Debug, PartialEq, Eq)]
pub struct Playlist {
    pub id: String,
    pub name: String,
    pub track_ids: Vec<String>,
}

/// The mathematical value of a playlist.
pub struct PlaylistView {
    pub id: Seq<char>,
    pub name: Seq<char>,
    pub track_ids: Seq<Seq<char>>,
}

impl View for Playlist {
    type V = PlaylistView;

    open spec fn view(&self) -> PlaylistView {
        PlaylistView { id: self.id@, name: self.name@, track_ids: self.track_ids.deep_view() }
    }
}

/// The values of a list of playlists.
pub open spec fn playlists_view(playlists: Seq<Playlist>) -> Seq<PlaylistView> {
    playlists.map_values(|p: Playlist| p@)
}

impl Playlist {
    /// A copy of the playlist.
    pub fn duplicate(&self) -> (res: Playlist)
        ensures
            res@ == self@,
    {
        Playlist {
            id: self.id.clone(),
            name: self.name.clone(),
            track_ids: clone_strings(&self.track_ids),
        }
    }
}

/// The fields of a track that its owner may edit.
#[derive(Clone, Debug, PartialEq, Eq)]
pub struct EditableTrackMetadata {
    pub title: String,
    pub artist: String,
    pub album: Option<String>,
    pub label: Option<String>,
    pub genres: Vec<String>,
}

/// What the library window shows: playlists (the two default ones first), the total
/// number of plays and every track.
#[derive(Clone, Debug, PartialEq, Eq)]
pub struct LibrarySnapshot {
    pub playlists: Vec<Playlist>,
    pub total_plays: u64,
    pub tracks: Vec<MediaItem>,
}

} // verus!
