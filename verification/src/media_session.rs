//! The operating system's media controls: which remote commands exist, and when the
//! now-playing information must be published again. Times are milliseconds of a
//! monotonic clock.
use vstd::prelude::*;

use crate::model::MediaItem;
use crate::playback::{PlaybackStatus, PlaybackTransport};

verus! {

/// A command from the media keys, the control center or the power manager.
#[derive(Clone, Copy, Debug, PartialEq, Eq, Structural)]
pub enum NativeAction {
    Play,
    Pause,
    Toggle,
    Next,
    Previous,
    Seek(u64),
    Stop,
    Sleep,
    Wake,
}

/// What the media controls show of a track.
#[derive(Debug)]
pub struct MetadataFingerprint {
    pub id: String,
    pub title: String,
    pub artist: String,
    pub album: Option<String>,
    pub cover_url: Option<String>,
    pub duration_ms: u64,
}

/// The mathematical value of a fingerprint.
pub struct FingerprintView {
    pub id: Seq<char>,
    pub title: Seq<char>,
    pub artist: Seq<char>,
    pub album: Option<Seq<char>>,
    pub cover_url: Option<Seq<char>>,
    pub duration_ms: u64,
}

impl View for MetadataFingerprint {
    type V = FingerprintView;

    open spec fn view(&self) -> FingerprintView {
        FingerprintView {
            id: self.id@,
            title: self.title@,
            artist: self.artist@,
            album: self.album.deep_view(),
            cover_url: self.cover_url.deep_view(),
            duration_ms: self.duration_ms,
        }
    }
}

/// The transport state as the media controls show it.
#[derive(Debug)]
pub struct TransportView {
    pub metadata: Option<MetadataFingerprint>,
    pub status: PlaybackStatus,
    pub position_ms: u64,
}

/// The mathematical value of a transport view.
pub struct TransportViewModel {
    pub metadata: Option<FingerprintView>,
    pub status: PlaybackStatus,
    pub position_ms: u64,
}

pub open spec fn opt_fingerprint(m: Option<MetadataFingerprint>) -> Option<FingerprintView> {
    match m {
        Some(f) => Some(f@),
        None => None,
    }
}

impl View for TransportView {
    type V = TransportViewModel;

    open spec fn view(&self) -> TransportViewModel {
        TransportViewModel {
            metadata: opt_fingerprint(self.metadata),
            status: self.status,
            position_ms: self.position_ms,
        }
    }
}

/// What to publish: the track's metadata, the playback state, or both.
#[derive(Clone, Copy, Debug, PartialEq, Eq, Structural)]
pub struct SyncDecision {
    pub metadata: bool,
    pub playback: bool,
}

/// What was last published, and when.
pub struct PublishedState {
    view: Option<TransportView>,
    published_at_ms: Option<u64>,
}

/// How long a playing position may go unpublished.
pub const POSITION_REFRESH_INTERVAL_MS: u64 = 15_000;

/// How far a playing position may drift from the expected one before it is published.
pub const POSITION_DRIFT_TOLERANCE_MS: u64 = 2_000;

/// The fingerprint of a track.
pub open spec fn fingerprint_of(item: MediaItem) -> FingerprintView {
    FingerprintView {
        id: item.id@,
        title: item.title@,
        artist: item.artist@,
        album: item.album.deep_view(),
        cover_url: item.thumbnail_url.deep_view(),
        duration_ms: item.duration_ms,
    }
}

fn clone_opt(s: &Option<String>) -> (res: Option<String>)
    ensures
        res.deep_view() == s.deep_view(),
{
    crate::model::clone_opt_string(s)
}

impl MetadataFingerprint {
    fn same(&self, other: &MetadataFingerprint) -> (r: bool)
        ensures
            r == (self@ == other@),
    {
        self.id == other.id && self.title == other.title && self.artist == other.artist
            && opt_same(&self.album, &other.album) && opt_same(&self.cover_url, &other.cover_url)
            && self.duration_ms == other.duration_ms
    }

    fn duplicate(&self) -> (res: MetadataFingerprint)
        ensures
            res@ == self@,
    {
        MetadataFingerprint {
            id: self.id.clone(),
            title: self.title.clone(),
            artist: self.artist.clone(),
            album: clone_opt(&self.album),
            cover_url: clone_opt(&self.cover_url),
            duration_ms: self.duration_ms,
        }
    }
}

fn opt_same(a: &Option<String>, b: &Option<String>) -> (r: bool)
    ensures
        r == (a.deep_view() == b.deep_view()),
{
    match (a, b) {
        (Some(x), Some(y)) => *x == *y,
        (None, None) => true,
        _ => false,
    }
}

fn same_metadata(a: &Option<MetadataFingerprint>, b: &Option<MetadataFingerprint>) -> (r: bool)
    ensures
        r == (opt_fingerprint(*a) == opt_fingerprint(*b)),
{
    match (a, b) {
        (Some(x), Some(y)) => x.same(y),
        (None, None) => true,
        _ => false,
    }
}

impl TransportView {
    /// What the media controls show of a transport state.
    pub fn from_transport(transport: &PlaybackTransport) -> (res: TransportView)
        ensures
            res@.metadata == match transport.current_item {
                Some(item) => Some(fingerprint_of(item)),
                None => None,
            },
            res@.status == transport.status,
            res@.position_ms == transport.position_ms,
    {
        let metadata = match &transport.current_item {
            Some(item) => Some(
                MetadataFingerprint {
                    id: item.id.clone(),
                    title: item.title.clone(),
                    artist: item.artist.clone(),
                    album: clone_opt(&item.album),
                    cover_url: clone_opt(&item.thumbnail_url),
                    duration_ms: item.duration_ms,
                },
            ),
            None => None,
        };
        TransportView { metadata, status: transport.status, position_ms: transport.position_ms }
    }

    /// A view of a track titled "Title" by "Artist", without album or cover.
    pub fn for_test(id: Option<&str>, status: PlaybackStatus, position_ms: u64, duration_ms: u64) -> (res:
        TransportView)
        ensures
            res@.metadata == match id {
                Some(i) => Some(
                    FingerprintView {
                        id: i@,
                        title: "Title"@,
                        artist: "Artist"@,
                        album: None,
                        cover_url: None,
                        duration_ms,
                    },
                ),
                None => None,
            },
            res@.status == status,
            res@.position_ms == position_ms,
    {
        let metadata = match id {
            Some(i) => Some(
                MetadataFingerprint {
                    id: String::from_str(i),
                    title: String::from_str("Title"),
                    artist: String::from_str("Artist"),
                    album: None,
                    cover_url: None,
                    duration_ms,
                },
            ),
            None => None,
        };
        TransportView { metadata, status, position_ms }
    }

    fn duplicate(&self) -> (res: TransportView)
        ensures
            res@ == self@,
    {
        let metadata = match &self.metadata {
            Some(m) => Some(m.duplicate()),
            None => None,
        };
        TransportView { metadata, status: self.status, position_ms: self.position_ms }
    }
}

/// The time since the last publication; zero when it is unknown or in the future.
pub open spec fn elapsed_ms(published_at: Option<u64>, now: u64) -> u64 {
    match published_at {
        Some(t) => if now >= t {
            (now - t) as u64
        } else {
            0
        },
        None => 0,
    }
}

/// Where a track that was playing should be now.
pub open spec fn expected_position(previous: TransportViewModel, elapsed: u64) -> u64 {
    if previous.status == PlaybackStatus::Playing {
        if previous.position_ms + elapsed > u64::MAX {
            u64::MAX
        } else {
            (previous.position_ms + elapsed) as u64
        }
    } else {
        previous.position_ms
    }
}

/// The distance between two positions.
pub open spec fn distance(a: u64, b: u64) -> int {
    if a >= b {
        a - b
    } else {
        b - a
    }
}

/// What to publish for a new transport state. The first state publishes everything.
/// The metadata is published when forced or when the track's fingerprint changed; the
/// playback state also when the status changed, when a playing position drifted more
/// than the tolerance from where it should be or went unpublished for the refresh
/// interval, or when a paused position moved.
pub open spec fn decide(
    previous: Option<TransportViewModel>,
    published_at: Option<u64>,
    current: TransportViewModel,
    now: u64,
    force: bool,
) -> SyncDecision {
    match previous {
        None => SyncDecision { metadata: true, playback: true },
        Some(prev) => {
            let metadata = force || prev.metadata != current.metadata;
            let status_changed = prev.status != current.status;
            let elapsed = elapsed_ms(published_at, now);
            let expected = expected_position(prev, elapsed);
            let position_changed = if current.status == PlaybackStatus::Playing {
                distance(current.position_ms, expected) > POSITION_DRIFT_TOLERANCE_MS
                    || elapsed >= POSITION_REFRESH_INTERVAL_MS
            } else {
                current.position_ms != prev.position_ms
            };
            SyncDecision {
                metadata,
                playback: force || metadata || status_changed || position_changed,
            }
        },
    }
}

pub open spec fn opt_transport(v: Option<TransportView>) -> Option<TransportViewModel> {
    match v {
        Some(t) => Some(t@),
        None => None,
    }
}

impl PublishedState {
    /// The last published view.
    pub closed spec fn last_view(&self) -> Option<TransportViewModel> {
        opt_transport(self.view)
    }

    /// When the last view was published.
    pub closed spec fn last_published_at(&self) -> Option<u64> {
        self.published_at_ms
    }

    /// Nothing published yet.
    pub fn new() -> (res: PublishedState)
        ensures
            res.last_view() is None,
            res.last_published_at() is None,
    {
        PublishedState { view: None, published_at_ms: None }
    }

    /// A state that published `view` at `published_at_ms`.
    ///
    /// Used to start from a known publication.
    pub fn from_test(view: &TransportView, published_at_ms: u64) -> (res: PublishedState)
        ensures
            res.last_view() == Some(view@),
            res.last_published_at() == Some(published_at_ms),
    {
        PublishedState { view: Some(view.duplicate()), published_at_ms: Some(published_at_ms) }
    }

    /// What to publish for `current` at `now_ms` (see `decide`).
    pub fn decision(&self, current: &TransportView, now_ms: u64, force: bool) -> (res: SyncDecision)
        ensures
            res == decide(self.last_view(), self.last_published_at(), current@, now_ms, force),
    {
        let previous = match &self.view {
            Some(p) => p,
            None => {
                return SyncDecision { metadata: true, playback: true };
            },
        };
        let metadata = force || !same_metadata(&previous.metadata, &current.metadata);
        let status_changed = previous.status != current.status;
        let elapsed: u64 = match self.published_at_ms {
            Some(t) => if now_ms >= t {
                now_ms - t
            } else {
                0
            },
            None => 0,
        };
        let expected: u64 = if previous.status == PlaybackStatus::Playing {
            previous.position_ms.saturating_add(elapsed)
        } else {
            previous.position_ms
        };
        let position_changed = if current.status == PlaybackStatus::Playing {
            let diff = if current.position_ms >= expected {
                current.position_ms - expected
            } else {
                expected - current.position_ms
            };
            diff > POSITION_DRIFT_TOLERANCE_MS || elapsed >= POSITION_REFRESH_INTERVAL_MS
        } else {
            current.position_ms != previous.position_ms
        };
        SyncDecision {
            metadata,
            playback: force || metadata || status_changed || position_changed,
        }
    }

    /// Remembers what was published and when.
    pub fn record(&mut self, view: TransportView, now_ms: u64)
        ensures
            final(self).last_view() == Some(view@),
            final(self).last_published_at() == Some(now_ms),
    {
        self.view = Some(view);
        self.published_at_ms = Some(now_ms);
    }
}

impl Default for PublishedState {
    fn default() -> (res: PublishedState)
        ensures
            res.last_view() is None,
            res.last_published_at() is None,
    {
        PublishedState::new()
    }
}

/// A forced refresh, as after a wake from sleep, publishes everything.
pub proof fn lemma_forced_refresh_publishes_everything(
    previous: Option<TransportViewModel>,
    published_at: Option<u64>,
    current: TransportViewModel,
    now: u64,
)
    ensures
        decide(previous, published_at, current, now, true) == (SyncDecision {
            metadata: true,
            playback: true,
        }),
{
}

/// Publishing what was just published, at the same moment, publishes nothing.
pub proof fn lemma_unchanged_state_publishes_nothing(view: TransportViewModel, now: u64)
    ensures
        decide(Some(view), Some(now), view, now, false) == (SyncDecision {
            metadata: false,
            playback: false,
        }),
{
}

/// A new track is always published with its metadata.
pub proof fn lemma_track_change_publishes_metadata(
    previous: TransportViewModel,
    published_at: Option<u64>,
    current: TransportViewModel,
    now: u64,
    force: bool,
)
    requires
        previous.metadata != current.metadata,
    ensures
        decide(Some(previous), published_at, current, now, force).metadata,
        decide(Some(previous), published_at, current, now, force).playback,
{
}

} // verus!
