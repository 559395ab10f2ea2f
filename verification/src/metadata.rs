//! Import metadata: the records that yt-dlp reports, how they become library tracks,
//! and how repeated imports merge into the library without duplicates.
use vstd::prelude::*;

use crate::model::{MediaItem, MediaItemView};
use crate::playback::first_index;
use crate::text::{is_white_space, trim_end_seq, trim_start_seq};
use crate::text::{
    chars_of, contains_chars, contains_seq, decimal_seq, decimal_text, eq_ignore_ascii_case,
    eq_ignore_ascii_case_seq, find_from, first_from, lines_of, rows, split_lines, string_of,
    trim_chars, trim_seq, trim_str,
};

verus! {

/// What can go wrong while importing or playing YouTube tracks.
#[derive(Debug, PartialEq, Eq)]
pub enum YouTubePlaybackError {
    UnsupportedUrl,
    DependencyUnavailable { name: String, detail: String },
    Metadata(String),
    Player(String),
    QueueIndexOutOfBounds { index: usize },
    CurrentQueueItem,
    TrackNotFound { id: String },
    InvalidVolume,
    InvalidTrackMetadata(String),
    InvalidPlaylist(String),
    Library(String),
}

/// A library track together with the URL it was imported from.
#[derive(Clone, Debug, PartialEq, Eq)]
pub struct QueueEntry {
    pub item: MediaItem,
    pub source_url: String,
}

/// The mathematical value of a queue entry.
pub struct QueueEntryView {
    pub item: MediaItemView,
    pub source_url: Seq<char>,
}

impl View for QueueEntry {
    type V = QueueEntryView;

    open spec fn view(&self) -> QueueEntryView {
        QueueEntryView { item: self.item@, source_url: self.source_url@ }
    }
}

/// The values of a list of entries.
pub open spec fn entries_view(entries: Seq<QueueEntry>) -> Seq<QueueEntryView> {
    entries.map_values(|e: QueueEntry| e@)
}

impl QueueEntry {
    /// A copy of the entry.
    pub fn duplicate(&self) -> (res: QueueEntry)
        ensures
            res@ == self@,
    {
        QueueEntry { item: self.item.duplicate(), source_url: self.source_url.clone() }
    }
}

/// A character that may appear in a YouTube video ID.
pub open spec fn video_id_char(c: char) -> bool {
    ('a' <= c && c <= 'z') || ('A' <= c && c <= 'Z') || ('0' <= c && c <= '9') || c == '-' || c
        == '_'
}

/// A YouTube video ID: eleven ASCII letters, digits, `-` or `_`.
pub open spec fn is_video_id(s: Seq<char>) -> bool {
    s.len() == 11 && forall|i: int| 0 <= i < s.len() ==> video_id_char(#[trigger] s[i])
}

fn video_id_char_exec(c: char) -> (r: bool)
    ensures
        r == video_id_char(c),
{
    ('a' <= c && c <= 'z') || ('A' <= c && c <= 'Z') || ('0' <= c && c <= '9') || c == '-' || c
        == '_'
}

/// Whether a text is a YouTube video ID.
pub fn is_youtube_video_id(value: &str) -> (r: bool)
    ensures
        r == is_video_id(value@),
{
    let chars = chars_of(value);
    if chars.len() != 11 {
        return false;
    }
    let mut i: usize = 0;
    while i < chars.len()
        invariant
            i <= chars.len(),
            chars@ == value@,
            forall|j: int| 0 <= j < i ==> video_id_char(#[trigger] value@[j]),
        decreases chars.len() - i,
    {
        if !video_id_char_exec(chars[i]) {
            return false;
        }
        i = i + 1;
    }
    true
}

/// A text that is not blank.
pub open spec fn nonempty_spec(value: Option<Seq<char>>) -> Option<Seq<char>> {
    match value {
        Some(v) => if trim_seq(v).len() == 0 {
            None
        } else {
            Some(v)
        },
        None => None,
    }
}

/// Keeps a value only when it is not blank; the value itself is kept as it is.
pub fn nonempty(value: Option<String>) -> (res: Option<String>)
    ensures
        res.deep_view() == nonempty_spec(value.deep_view()),
{
    match value {
        Some(v) => {
            let t = trim_str(v.as_str());
            if t.as_str().is_empty() {
                None
            } else {
                Some(v)
            }
        },
        None => None,
    }
}

/// The message of an empty required field.
pub open spec fn empty_field_message(field: Seq<char>) -> Seq<char> {
    field + " must not be empty"@
}

/// A required track field, trimmed; a blank value is refused.
pub fn required_metadata_value(value: String, field: &str) -> (res: Result<
    String,
    YouTubePlaybackError,
>)
    ensures
        trim_seq(value@).len() > 0 ==> (res matches Ok(v) && v@ == trim_seq(value@)),
        trim_seq(value@).len() == 0 ==> (res matches Err(
            YouTubePlaybackError::InvalidTrackMetadata(m),
        ) && m@ == empty_field_message(field@)),
{
    let trimmed = trim_str(value.as_str());
    if trimmed.as_str().is_empty() {
        let mut message = String::from_str(field);
        message.append(" must not be empty");
        return Err(YouTubePlaybackError::InvalidTrackMetadata(message));
    }
    Ok(trimmed)
}

/// An optional field trimmed, and dropped when blank.
pub open spec fn optional_value_spec(value: Option<Seq<char>>) -> Option<Seq<char>> {
    match value {
        Some(v) => if trim_seq(v).len() == 0 {
            None
        } else {
            Some(trim_seq(v))
        },
        None => None,
    }
}

/// Trims an optional field and drops it when it is blank.
pub fn optional_metadata_value(value: Option<String>) -> (res: Option<String>)
    ensures
        res.deep_view() == optional_value_spec(value.deep_view()),
{
    match value {
        Some(v) => {
            let t = trim_str(v.as_str());
            if t.as_str().is_empty() {
                None
            } else {
                Some(t)
            }
        },
        None => None,
    }
}

/// Some earlier value equals `g` when ASCII case is ignored.
pub open spec fn has_caseless(values: Seq<Seq<char>>, g: Seq<char>) -> bool {
    exists|j: int| 0 <= j < values.len() && eq_ignore_ascii_case_seq(#[trigger] values[j], g)
}

/// Each value trimmed; blank values and values that repeat an earlier one (ignoring
/// ASCII case) left out; the first spelling kept, in input order.
pub open spec fn normalized_values(values: Seq<Seq<char>>) -> Seq<Seq<char>>
    decreases values.len(),
{
    if values.len() == 0 {
        seq![]
    } else {
        let prev = normalized_values(values.drop_last());
        let g = trim_seq(values.last());
        if g.len() == 0 || has_caseless(prev, g) {
            prev
        } else {
            prev.push(g)
        }
    }
}

fn has_caseless_exec(values: &Vec<String>, g: &[char]) -> (r: bool)
    ensures
        r == has_caseless(values.deep_view(), g@),
{
    let mut i: usize = 0;
    while i < values.len()
        invariant
            i <= values.len(),
            forall|j: int|
                0 <= j < i ==> !eq_ignore_ascii_case_seq(#[trigger] values.deep_view()[j], g@),
        decreases values.len() - i,
    {
        let existing = chars_of(values[i].as_str());
        assert(values.deep_view()[i as int] == values@[i as int]@);
        if eq_ignore_ascii_case(existing.as_slice(), g) {
            return true;
        }
        i = i + 1;
    }
    false
}

/// Trims genres, drops blank ones and repeats that differ only in ASCII case.
pub fn normalize_genres(genres: Vec<String>) -> (res: Vec<String>)
    ensures
        res.deep_view() == normalized_values(genres.deep_view()),
{
    let mut normalized: Vec<String> = Vec::new();
    let mut i: usize = 0;
    while i < genres.len()
        invariant
            i <= genres.len(),
            normalized.deep_view() == normalized_values(genres.deep_view().take(i as int)),
        decreases genres.len() - i,
    {
        let ghost before = genres.deep_view().take(i as int);
        assert(genres.deep_view().take(i + 1).drop_last() =~= before);
        assert(genres.deep_view().take(i + 1).last() == genres@[i as int]@);
        let g = trim_str(genres[i].as_str());
        let gc = chars_of(g.as_str());
        if g.as_str().is_empty() || has_caseless_exec(&normalized, gc.as_slice()) {
        } else {
            let ghost old_view = normalized.deep_view();
            normalized.push(g);
            assert(normalized.deep_view() =~= old_view.push(trim_seq(genres@[i as int]@)));
        }
        i = i + 1;
    }
    assert(genres.deep_view().take(genres.len() as int) =~= genres.deep_view());
    normalized
}

/// Normalizes an optional list of values; a missing list gives an empty one.
pub fn normalize_values(values: Option<Vec<String>>) -> (res: Vec<String>)
    ensures
        res.deep_view() == normalized_values(
            match values {
                Some(v) => v.deep_view(),
                None => seq![],
            },
        ),
{
    match values {
        Some(v) => normalize_genres(v),
        None => Vec::new(),
    }
}


/// The release-date form of an eight-digit date: `YYYYMMDD` becomes `YYYY-MM-DD`.
pub open spec fn dashed_date(v: Seq<char>) -> Seq<char> {
    v.subrange(0, 4) + seq!['-'] + v.subrange(4, 6) + seq!['-'] + v.subrange(6, 8)
}

/// Eight ASCII digits.
pub open spec fn is_compact_date(v: Seq<char>) -> bool {
    v.len() == 8 && forall|i: int| 0 <= i < 8 ==> '0' <= #[trigger] v[i] && v[i] <= '9'
}

/// A non-blank date, with an eight-digit date written with dashes.
pub open spec fn normalized_date(value: Option<Seq<char>>) -> Option<Seq<char>> {
    match nonempty_spec(value) {
        Some(v) => if is_compact_date(v) {
            Some(dashed_date(v))
        } else {
            Some(v)
        },
        None => None,
    }
}

/// Normalizes a date: blank dates are dropped and `YYYYMMDD` becomes `YYYY-MM-DD`.
pub fn normalize_date(value: Option<String>) -> (res: Option<String>)
    ensures
        res.deep_view() == normalized_date(value.deep_view()),
{
    let ghost original = value.deep_view();
    let v = match nonempty(value) {
        Some(v) => v,
        None => return None,
    };
    let c = chars_of(v.as_str());
    if c.len() != 8 {
        return Some(v);
    }
    let mut i: usize = 0;
    while i < 8
        invariant
            i <= 8,
            c@ == v@,
            c@.len() == 8,
            forall|j: int| 0 <= j < i ==> '0' <= #[trigger] c@[j] && c@[j] <= '9',
        ensures
            i <= 8,
            forall|j: int| 0 <= j < i ==> '0' <= #[trigger] c@[j] && c@[j] <= '9',
            i < 8 ==> !('0' <= c@[i as int] && c@[i as int] <= '9'),
        decreases 8 - i,
    {
        if !('0' <= c[i] && c[i] <= '9') {
            break;
        }
        i = i + 1;
    }
    if i < 8 {
        assert(!is_compact_date(v@)) by {
            assert(!('0' <= v@[i as int] && v@[i as int] <= '9'));
        }
        return Some(v);
    }
    let mut out: Vec<char> = Vec::new();
    out.push(c[0]);
    out.push(c[1]);
    out.push(c[2]);
    out.push(c[3]);
    out.push('-');
    out.push(c[4]);
    out.push(c[5]);
    out.push('-');
    out.push(c[6]);
    out.push(c[7]);
    assert(out@ =~= dashed_date(v@));
    Some(string_of(out.as_slice()))
}

/// The parts of a parsed URL that the library reads.
#[derive(Clone, Debug, PartialEq, Eq)]
pub struct ParsedUrl {
    pub scheme: String,
    pub host: Option<String>,
    pub serialized: String,
}

/// The mathematical value of a parsed URL.
pub struct UrlParts {
    pub scheme: Seq<char>,
    pub host: Option<Seq<char>>,
    pub serialized: Seq<char>,
}

impl View for ParsedUrl {
    type V = UrlParts;

    open spec fn view(&self) -> UrlParts {
        UrlParts {
            scheme: self.scheme@,
            host: self.host.deep_view(),
            serialized: self.serialized@,
        }
    }
}

pub open spec fn opt_url_view(u: Option<ParsedUrl>) -> Option<UrlParts> {
    match u {
        Some(p) => Some(p@),
        None => None,
    }
}

/// What `url::Url::parse` makes of a text: `None` where it refuses it, else the URL's
/// scheme, host and serialization.
pub uninterp spec fn url_parse(text: Seq<char>) -> Option<UrlParts>;

/// Parses an absolute URL with `url::Url::parse` and reads its scheme (`Url::scheme`),
/// host (`Url::host_str`) and serialization (`Url::as_str`, which is also what it
/// displays as). The result is named, not described: the WHATWG parsing rules are
/// not restated here.
#[verifier::external_body]
fn parse_url(text: &str) -> (res: Option<ParsedUrl>)
    ensures
        opt_url_view(res) == url_parse(text@),
{
    match url::Url::parse(text) {
        Ok(u) => Some(
            ParsedUrl {
                scheme: u.scheme().to_string(),
                host: u.host_str().map(String::from),
                serialized: u.as_str().to_string(),
            },
        ),
        Err(_) => None,
    }
}

impl ParsedUrl {
    /// Parses an absolute URL (see `url_parse`); `None` where it is not one.
    pub fn parse(text: &str) -> (res: Option<ParsedUrl>)
        ensures
            opt_url_view(res) == url_parse(text@),
    {
        parse_url(text)
    }
}

/// The hosts from which tracks can be imported.
pub open spec fn youtube_host(h: Seq<char>) -> bool {
    ||| h == "youtube.com"@
    ||| h == "www.youtube.com"@
    ||| h == "music.youtube.com"@
    ||| h == "m.youtube.com"@
    ||| h == "youtu.be"@
}

/// A parsed URL that names a YouTube host over HTTPS.
pub open spec fn youtube_url(p: UrlParts) -> bool {
    &&& p.scheme == "https"@
    &&& p.host matches Some(h) && youtube_host(h)
}

/// The accepted URL of a text, if any: the text is trimmed and parsed.
pub open spec fn accepted_url(text: Seq<char>) -> Option<UrlParts> {
    match url_parse(trim_seq(text)) {
        Some(p) => if youtube_url(p) {
            Some(p)
        } else {
            None
        },
        None => None,
    }
}

/// Exactly five hosts are accepted, over HTTPS only: an HTTPS URL on youtube.com,
/// www.youtube.com, music.youtube.com, m.youtube.com or youtu.be is a YouTube URL (and a
/// text that parses to one is accepted as it parsed); any other host, a URL without host,
/// or another scheme is not.
pub proof fn lemma_youtube_hosts(p: UrlParts, text: Seq<char>)
    ensures
        p.scheme == "https"@ && (p.host == Some("youtube.com"@) || p.host == Some("www.youtube.com"@)
            || p.host == Some("music.youtube.com"@) || p.host == Some("m.youtube.com"@) || p.host
            == Some("youtu.be"@)) ==> youtube_url(p),
        youtube_url(p) ==> p.scheme == "https"@ && (p.host == Some("youtube.com"@) || p.host == Some(
            "www.youtube.com"@,
        ) || p.host == Some("music.youtube.com"@) || p.host == Some("m.youtube.com"@) || p.host
            == Some("youtu.be"@)),
        url_parse(trim_seq(text)) == Some(p) ==> accepted_url(text) == if youtube_url(p) {
            Some(p)
        } else {
            None
        },
{
}

fn is_youtube_host(h: &str) -> (r: bool)
    ensures
        r == youtube_host(h@),
{
    crate::text::str_equal(h, "youtube.com") || crate::text::str_equal(h, "www.youtube.com")
        || crate::text::str_equal(h, "music.youtube.com") || crate::text::str_equal(
        h,
        "m.youtube.com",
    ) || crate::text::str_equal(h, "youtu.be")
}

/// Accepts a parsed URL when it uses HTTPS and a YouTube host; an unparsable or other
/// URL is `UnsupportedUrl`.
pub fn check_youtube_url(parsed: Option<ParsedUrl>) -> (res: Result<ParsedUrl, YouTubePlaybackError>)
    ensures
        match parsed {
            Some(p) => if youtube_url(p@) {
                res matches Ok(u) && u@ == p@
            } else {
                res matches Err(YouTubePlaybackError::UnsupportedUrl)
            },
            None => res matches Err(YouTubePlaybackError::UnsupportedUrl),
        },
{
    match parsed {
        Some(p) => {
            let https = crate::text::str_equal(p.scheme.as_str(), "https");
            let host_ok = match &p.host {
                Some(h) => is_youtube_host(h.as_str()),
                None => false,
            };
            if https && host_ok {
                Ok(p)
            } else {
                Err(YouTubePlaybackError::UnsupportedUrl)
            }
        },
        None => Err(YouTubePlaybackError::UnsupportedUrl),
    }
}

/// Validates an import URL: after trimming it must parse as an HTTPS URL on
/// youtube.com, www.youtube.com, music.youtube.com, m.youtube.com or youtu.be.
pub fn validate_youtube_url(source_url: &str) -> (res: Result<ParsedUrl, YouTubePlaybackError>)
    ensures
        match accepted_url(source_url@) {
            Some(p) => res matches Ok(u) && u@ == p,
            None => res matches Err(YouTubePlaybackError::UnsupportedUrl),
        },
{
    let trimmed = trim_str(source_url);
    let parsed = parse_url(trimmed.as_str());
    check_youtube_url(parsed)
}


/// One record of yt-dlp's JSON output: a video, or a playlist, channel or tab whose
/// `entries` hold further records (`None` for an entry yt-dlp could not read).
/// `duration_ms` is the reported duration in whole milliseconds where it was a finite,
/// non-negative number of seconds.
pub struct YtDlpMetadata {
    pub id: Option<String>,
    pub title: Option<String>,
    pub track: Option<String>,
    pub artist: Option<String>,
    pub album: Option<String>,
    pub album_artist: Option<String>,
    pub track_number: Option<u32>,
    pub disc_number: Option<u32>,
    pub release_date: Option<String>,
    pub upload_date: Option<String>,
    pub description: Option<String>,
    pub channel: Option<String>,
    pub channel_id: Option<String>,
    pub uploader: Option<String>,
    pub uploader_id: Option<String>,
    pub thumbnail: Option<String>,
    pub categories: Option<Vec<String>>,
    pub tags: Option<Vec<String>>,
    pub language: Option<String>,
    pub availability: Option<String>,
    pub is_live: Option<bool>,
    pub view_count: Option<u64>,
    pub like_count: Option<u64>,
    pub duration_ms: Option<u64>,
    pub webpage_url: Option<String>,
    pub entries: Option<Vec<Option<YtDlpMetadata>>>,
}

/// The first of two optional values that is present.
pub open spec fn either(a: Option<Seq<char>>, b: Option<Seq<char>>) -> Option<Seq<char>> {
    match a {
        Some(x) => Some(x),
        None => b,
    }
}

/// The watch page of a video.
pub open spec fn watch_url(id: Seq<char>) -> Seq<char> {
    "https://www.youtube.com/watch?v="@ + id
}

/// The source URL of an imported track: its page when that is an accepted YouTube URL
/// (as the URL serializes), else the watch page of its ID.
pub open spec fn entry_source_url(webpage_url: Option<Seq<char>>, id: Seq<char>) -> Seq<char> {
    match webpage_url {
        Some(u) => match accepted_url(u) {
            Some(p) => p.serialized,
            None => watch_url(id),
        },
        None => watch_url(id),
    }
}

/// The values of an optional list, empty when missing.
pub open spec fn list_of(values: Option<Vec<String>>) -> Seq<Seq<char>> {
    match values {
        Some(v) => v.deep_view(),
        None => seq![],
    }
}

/// The library track that a record describes, if it is playable: it needs a video ID
/// and a title (the track name, else the video title). The artist falls back to the
/// channel, then the uploader, then "YouTube".
pub open spec fn track_of(m: YtDlpMetadata, dirty: bool) -> Option<QueueEntryView> {
    let id = nonempty_spec(m.id.deep_view());
    let title = either(nonempty_spec(m.track.deep_view()), nonempty_spec(m.title.deep_view()));
    if id is None || !is_video_id(id->0) || title is None {
        None
    } else {
        let id = id->0;
        let artist = match either(
            either(nonempty_spec(m.artist.deep_view()), nonempty_spec(m.channel.deep_view())),
            nonempty_spec(m.uploader.deep_view()),
        ) {
            Some(a) => a,
            None => "YouTube"@,
        };
        let source = entry_source_url(m.webpage_url.deep_view(), id);
        Some(
            QueueEntryView {
                item: MediaItemView {
                    id: id,
                    provider: "youtube"@,
                    source_url: Some(source),
                    title: title->0,
                    artist: artist,
                    album: nonempty_spec(m.album.deep_view()),
                    album_artist: nonempty_spec(m.album_artist.deep_view()),
                    track_number: m.track_number,
                    disc_number: m.disc_number,
                    release_date: normalized_date(m.release_date.deep_view()),
                    upload_date: normalized_date(m.upload_date.deep_view()),
                    description: nonempty_spec(m.description.deep_view()),
                    channel: nonempty_spec(m.channel.deep_view()),
                    channel_id: nonempty_spec(m.channel_id.deep_view()),
                    uploader: nonempty_spec(m.uploader.deep_view()),
                    uploader_id: nonempty_spec(m.uploader_id.deep_view()),
                    thumbnail_url: nonempty_spec(m.thumbnail.deep_view()),
                    label: None,
                    genres: seq![],
                    categories: normalized_values(list_of(m.categories)),
                    tags: normalized_values(list_of(m.tags)),
                    language: nonempty_spec(m.language.deep_view()),
                    availability: nonempty_spec(m.availability.deep_view()),
                    is_live: match m.is_live {
                        Some(b) => b,
                        None => false,
                    },
                    view_count: m.view_count,
                    like_count: m.like_count,
                    duration_ms: match m.duration_ms {
                        Some(d) => d,
                        None => 0,
                    },
                    metadata_dirty: dirty,
                    play_count: 0,
                    last_played_at_ms: None,
                    play_history_ms: seq![],
                },
                source_url: source,
            },
        )
    }
}

pub open spec fn opt_entry_view(e: Option<QueueEntry>) -> Option<QueueEntryView> {
    match e {
        Some(x) => Some(x@),
        None => None,
    }
}

fn source_url_of(webpage_url: Option<String>, id: &String) -> (res: String)
    ensures
        res@ == entry_source_url(webpage_url.deep_view(), id@),
{
    let accepted = match webpage_url {
        Some(u) => match validate_youtube_url(u.as_str()) {
            Ok(p) => Some(p.serialized),
            Err(_) => None,
        },
        None => None,
    };
    match accepted {
        Some(s) => s,
        None => {
            let mut s = String::from_str("https://www.youtube.com/watch?v=");
            s.append(id.as_str());
            s
        },
    }
}

/// The track that a record describes, if it is playable (see `track_of`).
pub fn metadata_entry(metadata: YtDlpMetadata, metadata_dirty: bool) -> (res: Option<QueueEntry>)
    ensures
        opt_entry_view(res) == track_of(metadata, metadata_dirty),
{
    let ghost m = metadata;
    let id = match nonempty(metadata.id) {
        Some(id) => id,
        None => return None,
    };
    if !is_youtube_video_id(id.as_str()) {
        return None;
    }
    let title = match nonempty(metadata.track) {
        Some(t) => t,
        None => match nonempty(metadata.title) {
            Some(t) => t,
            None => return None,
        },
    };
    let artist = match nonempty(metadata.artist) {
        Some(a) => a,
        None => match nonempty(crate::model::clone_opt_string(&metadata.channel)) {
            Some(a) => a,
            None => match nonempty(crate::model::clone_opt_string(&metadata.uploader)) {
                Some(a) => a,
                None => String::from_str("YouTube"),
            },
        },
    };
    let duration_ms = match metadata.duration_ms {
        Some(d) => d,
        None => 0,
    };
    let source_url = source_url_of(metadata.webpage_url, &id);
    let item = MediaItem {
        id: id,
        provider: String::from_str("youtube"),
        source_url: Some(source_url.clone()),
        title: title,
        artist: artist,
        album: nonempty(metadata.album),
        album_artist: nonempty(metadata.album_artist),
        track_number: metadata.track_number,
        disc_number: metadata.disc_number,
        release_date: normalize_date(metadata.release_date),
        upload_date: normalize_date(metadata.upload_date),
        description: nonempty(metadata.description),
        channel: nonempty(metadata.channel),
        channel_id: nonempty(metadata.channel_id),
        uploader: nonempty(metadata.uploader),
        uploader_id: nonempty(metadata.uploader_id),
        thumbnail_url: nonempty(metadata.thumbnail),
        label: None,
        genres: Vec::new(),
        categories: normalize_values(metadata.categories),
        tags: normalize_values(metadata.tags),
        language: nonempty(metadata.language),
        availability: nonempty(metadata.availability),
        is_live: match metadata.is_live {
            Some(b) => b,
            None => false,
        },
        view_count: metadata.view_count,
        like_count: metadata.like_count,
        duration_ms: duration_ms,
        metadata_dirty: metadata_dirty,
        play_count: 0,
        last_played_at_ms: None,
        play_history_ms: Vec::new(),
    };
    let entry = QueueEntry { item: item, source_url: source_url };
    assert(entry@.item.genres =~= seq![]);
    assert(entry@.item.play_history_ms =~= seq![]);
    Some(entry)
}


/// The records without entries that a record holds, depth first, in order; unreadable
/// entries are skipped.
pub open spec fn leaves(m: YtDlpMetadata) -> Seq<YtDlpMetadata>
    decreases m,
{
    match m.entries {
        Some(es) => leaves_of(es@),
        None => seq![m],
    }
}

/// The leaf records of a list of entries.
pub open spec fn leaves_of(s: Seq<Option<YtDlpMetadata>>) -> Seq<YtDlpMetadata>
    decreases s,
{
    if s.len() == 0 {
        seq![]
    } else {
        leaves_of(s.drop_last()) + match s.last() {
            Some(e) => leaves(e),
            None => seq![],
        }
    }
}

/// Appends the leaf records of a record to `candidates`.
pub fn flatten_metadata(metadata: YtDlpMetadata, candidates: &mut Vec<YtDlpMetadata>)
    ensures
        final(candidates)@ == old(candidates)@ + leaves(metadata),
    decreases metadata,
{
    let ghost m = metadata;
    if metadata.entries.is_none() {
        candidates.push(metadata);
        return;
    }
    let entries = metadata.entries.unwrap();
    let ghost es = entries@;
    let ghost start = candidates@;
    for entry in it: entries.into_iter()
        invariant
            it.seq() == es,
            m == metadata,
            m.entries == Some(entries),
            es == entries@,
            candidates@ == start + leaves_of(es.take(it.index() as int)),
    {
        let ghost k = it.index();
        assert(es.take(k + 1).drop_last() =~= es.take(k as int));
        assert(es.take(k + 1).last() == entry);
        match entry {
            Some(e) => {
                assert(decreases_to!(m => e)) by {
                    let opt = m.entries;
                    assert(decreases_to!(m => opt));
                    assert(decreases_to!(opt => opt->0));
                    assert(opt->0 == entries);
                    assert(decreases_to!(entries => entries@));
                    assert(entries@[k as int] == Some(e));
                    assert(decreases_to!(entries@ => entries@[k as int]));
                    let slot = entries@[k as int];
                    assert(decreases_to!(slot => slot->0));
                };
                flatten_metadata(e, candidates);
            },
            None => {},
        }
        assert(candidates@ =~= start + leaves_of(es.take(k + 1)));
    }
    assert(es.take(es.len() as int) =~= es);
}

/// Some entry has the track ID `id`.
pub open spec fn has_entry_id(s: Seq<QueueEntryView>, id: Seq<char>) -> bool {
    exists|j: int| 0 <= j < s.len() && (#[trigger] s[j]).item.id == id
}

/// The playable tracks of a list of records, in order, each video ID kept once (its
/// first occurrence).
pub open spec fn tracks_of(cands: Seq<YtDlpMetadata>, dirty: bool) -> Seq<QueueEntryView>
    decreases cands.len(),
{
    if cands.len() == 0 {
        seq![]
    } else {
        let prev = tracks_of(cands.drop_last(), dirty);
        match track_of(cands.last(), dirty) {
            Some(e) => if has_entry_id(prev, e.item.id) {
                prev
            } else {
                prev.push(e)
            },
            None => prev,
        }
    }
}

/// The tracks that a record yields.
pub open spec fn import_tracks(metadata: YtDlpMetadata, dirty: bool) -> Seq<QueueEntryView> {
    tracks_of(leaves(metadata), dirty)
}

fn has_entry_id_exec(entries: &Vec<QueueEntry>, id: &String) -> (r: bool)
    ensures
        r == has_entry_id(entries_view(entries@), id@),
{
    let ghost v = entries_view(entries@);
    let mut i: usize = 0;
    while i < entries.len()
        invariant
            i <= entries.len(),
            v == entries_view(entries@),
            forall|j: int| 0 <= j < i ==> (#[trigger] v[j]).item.id != id@,
        decreases entries.len() - i,
    {
        assert(v[i as int] == entries@[i as int]@);
        if entries[i].item.id == *id {
            return true;
        }
        i = i + 1;
    }
    false
}

/// The tracks of one yt-dlp record: every playable leaf, each video once. A record
/// without a playable track is refused with
/// `Metadata("no playable tracks found in the YouTube URL")`.
pub fn parse_import_metadata_with_dirty_state(metadata: YtDlpMetadata, metadata_dirty: bool) -> (res:
    Result<Vec<QueueEntry>, YouTubePlaybackError>)
    ensures
        import_tracks(metadata, metadata_dirty).len() > 0 ==> (res matches Ok(v) && entries_view(
            v@,
        ) == import_tracks(metadata, metadata_dirty)),
        import_tracks(metadata, metadata_dirty).len() == 0 ==> (res matches Err(
            YouTubePlaybackError::Metadata(m),
        ) && m@ == "no playable tracks found in the YouTube URL"@),
{
    let ghost m = metadata;
    let mut candidates: Vec<YtDlpMetadata> = Vec::new();
    flatten_metadata(metadata, &mut candidates);
    assert(candidates@ =~= leaves(m));
    let ghost cands = candidates@;
    let mut tracks: Vec<QueueEntry> = Vec::new();
    for candidate in it: candidates.into_iter()
        invariant
            it.seq() == cands,
            entries_view(tracks@) == tracks_of(cands.take(it.index() as int), metadata_dirty),
    {
        let ghost k = it.index();
        assert(cands.take(k + 1).drop_last() =~= cands.take(k as int));
        assert(cands.take(k + 1).last() == candidate);
        match metadata_entry(candidate, metadata_dirty) {
            Some(entry) => {
                if !has_entry_id_exec(&tracks, &entry.item.id) {
                    let ghost before = entries_view(tracks@);
                    tracks.push(entry);
                    assert(entries_view(tracks@) =~= before.push(entry@));
                }
            },
            None => {},
        }
    }
    assert(cands.take(cands.len() as int) =~= cands);
    if tracks.len() == 0 {
        return Err(
            YouTubePlaybackError::Metadata(
                String::from_str("no playable tracks found in the YouTube URL"),
            ),
        );
    }
    Ok(tracks)
}

/// The tracks of a fully resolved record (see `parse_import_metadata_with_dirty_state`).
pub fn parse_import_metadata(metadata: YtDlpMetadata) -> (res: Result<
    Vec<QueueEntry>,
    YouTubePlaybackError,
>)
    ensures
        import_tracks(metadata, false).len() > 0 ==> (res matches Ok(v) && entries_view(v@)
            == import_tracks(metadata, false)),
        import_tracks(metadata, false).len() == 0 ==> (res matches Err(
            YouTubePlaybackError::Metadata(m),
        ) && m@ == "no playable tracks found in the YouTube URL"@),
{
    parse_import_metadata_with_dirty_state(metadata, false)
}


/// The track IDs of a list of entries.
pub open spec fn entry_ids(s: Seq<QueueEntryView>) -> Seq<Seq<char>> {
    s.map_values(|e: QueueEntryView| e.item.id)
}

/// When an ID occurs in a list, `first_index` finds an occurrence no later than any.
pub proof fn lemma_first_index_found(ids: Seq<Seq<char>>, id: Seq<char>, k: int)
    requires
        0 <= k < ids.len(),
        ids[k] == id,
    ensures
        first_index(ids, id) matches Some(j) && 0 <= j <= k && ids[j] == id,
    decreases k,
{
    if exists|j: int| 0 <= j < k && ids[j] == id {
        let j = choose|j: int| 0 <= j < k && ids[j] == id;
        lemma_first_index_found(ids, id, j);
    } else {
        assert(0 <= k < ids.len() && ids[k] == id && forall|j: int| 0 <= j < k ==> ids[j] != id);
    }
}

/// The imported entry, with the user's own data of the entry it replaces kept: label,
/// genres, play count, last play and play history.
pub open spec fn refreshed(existing: QueueEntryView, imported: QueueEntryView) -> QueueEntryView {
    QueueEntryView {
        item: MediaItemView {
            label: existing.item.label,
            genres: existing.item.genres,
            play_count: existing.item.play_count,
            last_played_at_ms: existing.item.last_played_at_ms,
            play_history_ms: existing.item.play_history_ms,
            ..imported.item
        },
        source_url: imported.source_url,
    }
}

/// Merges one imported entry: it refreshes the first entry with its ID, or is appended.
pub open spec fn merge_one(entries: Seq<QueueEntryView>, e: QueueEntryView) -> Seq<QueueEntryView> {
    match first_index(entry_ids(entries), e.item.id) {
        Some(j) => entries.update(j, refreshed(entries[j], e)),
        None => entries.push(e),
    }
}

/// Merges imported entries in order.
pub open spec fn merged(entries: Seq<QueueEntryView>, imported: Seq<QueueEntryView>) -> Seq<
    QueueEntryView,
>
    decreases imported.len(),
{
    if imported.len() == 0 {
        entries
    } else {
        merge_one(merged(entries, imported.drop_last()), imported.last())
    }
}

fn position_of_entry(entries: &Vec<QueueEntry>, id: &String) -> (res: Option<usize>)
    ensures
        match res {
            Some(i) => first_index(entry_ids(entries_view(entries@)), id@) == Some(i as int),
            None => first_index(entry_ids(entries_view(entries@)), id@) is None,
        },
        res matches Some(i) ==> i < entries@.len(),
{
    let ghost v = entry_ids(entries_view(entries@));
    let mut i: usize = 0;
    while i < entries.len()
        invariant
            i <= entries.len(),
            v == entry_ids(entries_view(entries@)),
            forall|j: int| 0 <= j < i ==> v[j] != id@,
        decreases entries.len() - i,
    {
        assert(v[i as int] == entries@[i as int].item.id@);
        if entries[i].item.id == *id {
            proof {
                lemma_first_index_found(v, id@, i as int);
            }
            return Some(i);
        }
        i = i + 1;
    }
    proof {
        if first_index(v, id@) is Some {
            let j = first_index(v, id@)->0;
            assert(v[j] == id@);
        }
    }
    None
}

/// Merges imported entries into the library: an entry whose track is already there
/// replaces it in place, keeping the user's own data; a new track is appended.
pub fn merge_queue_entries(entries: &mut Vec<QueueEntry>, imported: Vec<QueueEntry>)
    ensures
        entries_view(final(entries)@) == merged(entries_view(old(entries)@), entries_view(imported@)),
{
    let ghost start = entries_view(entries@);
    let ghost imp = imported@;
    for entry in it: imported.into_iter()
        invariant
            it.seq() == imp,
            entries_view(entries@) == merged(start, entries_view(imp.take(it.index() as int))),
    {
        let ghost k = it.index();
        assert(entries_view(imp.take(k + 1)).drop_last() =~= entries_view(imp.take(k as int)));
        assert(entries_view(imp.take(k + 1)).last() == entry@);
        let ghost before = entries_view(entries@);
        match position_of_entry(entries, &entry.item.id) {
            Some(j) => {
                let mut fresh = entry;
                fresh.item.label = crate::model::clone_opt_string(&entries[j].item.label);
                fresh.item.genres = crate::model::clone_strings(&entries[j].item.genres);
                fresh.item.play_count = entries[j].item.play_count;
                fresh.item.last_played_at_ms = entries[j].item.last_played_at_ms;
                fresh.item.play_history_ms = crate::model::clone_numbers(
                    &entries[j].item.play_history_ms,
                );
                assert(fresh@ == refreshed(before[j as int], entry@));
                entries.set(j, fresh);
                assert(entries_view(entries@) =~= before.update(
                    j as int,
                    refreshed(before[j as int], entry@),
                ));
            },
            None => {
                entries.push(entry);
                assert(entries_view(entries@) =~= before.push(entry@));
            },
        }
    }
    assert(imp.take(imp.len() as int) =~= imp);
}


/// Importing never touches the user's own data of a track already in the library: every
/// entry that was there keeps its place, its ID, its label, its genres, its play count,
/// its last play and its play history, whatever the imports hold.
pub proof fn lemma_merge_keeps_user_data(entries: Seq<QueueEntryView>, imported: Seq<QueueEntryView>)
    ensures
        merged(entries, imported).len() >= entries.len(),
        forall|k: int|
            0 <= k < entries.len() ==> {
                let m = (#[trigger] merged(entries, imported)[k]).item;
                let e = entries[k].item;
                &&& m.id == e.id
                &&& m.label == e.label
                &&& m.genres == e.genres
                &&& m.play_count == e.play_count
                &&& m.last_played_at_ms == e.last_played_at_ms
                &&& m.play_history_ms == e.play_history_ms
            },
    decreases imported.len(),
{
    if imported.len() > 0 {
        let prev = merged(entries, imported.drop_last());
        lemma_merge_keeps_user_data(entries, imported.drop_last());
        let e = imported.last();
        let ids = entry_ids(prev);
        match first_index(ids, e.item.id) {
            Some(j) => {
                assert(ids[j] == e.item.id);
                assert(prev[j].item.id == ids[j]);
            },
            None => {},
        }
        assert forall|k: int| 0 <= k < entries.len() implies {
            let m = (#[trigger] merged(entries, imported)[k]).item;
            let e = entries[k].item;
            &&& m.id == e.id
            &&& m.label == e.label
            &&& m.genres == e.genres
            &&& m.play_count == e.play_count
            &&& m.last_played_at_ms == e.last_played_at_ms
            &&& m.play_history_ms == e.play_history_ms
        } by {
            assert(prev[k].item.id == entries[k].item.id);
        }
    }
}

/// Importing a track that is already in the library refreshes its entry in place with the
/// imported metadata (title, artist, album, duration, source URL) while its play count
/// and the rest of the user's data stay; a track that is not there is appended as imported.
pub proof fn lemma_import_refreshes_existing_entry(entries: Seq<QueueEntryView>, e: QueueEntryView, j: int)
    ensures
        ({
            let m = merged(entries, seq![e]);
            &&& 0 <= j < entries.len() && entries[j].item.id == e.item.id && (forall|k: int|
                0 <= k < j ==> entries[k].item.id != e.item.id) ==> {
                &&& m.len() == entries.len()
                &&& m[j].item.title == e.item.title
                &&& m[j].item.artist == e.item.artist
                &&& m[j].item.album == e.item.album
                &&& m[j].item.duration_ms == e.item.duration_ms
                &&& m[j].source_url == e.source_url
                &&& m[j].item.play_count == entries[j].item.play_count
                &&& m[j].item.label == entries[j].item.label
                &&& m[j].item.genres == entries[j].item.genres
                &&& m[j].item.last_played_at_ms == entries[j].item.last_played_at_ms
                &&& m[j].item.play_history_ms == entries[j].item.play_history_ms
                &&& forall|k: int| 0 <= k < entries.len() && k != j ==> m[k] == entries[k]
            }
            &&& (forall|k: int| 0 <= k < entries.len() ==> entries[k].item.id != e.item.id) ==> m
                == entries.push(e)
        }),
{
    assert(seq![e].drop_last() =~= Seq::<QueueEntryView>::empty());
    assert(seq![e].last() == e);
    assert(merged(entries, Seq::<QueueEntryView>::empty()) == entries);
    assert(merged(entries, seq![e].drop_last()) == entries);
    assert(merged(entries, seq![e]) == merge_one(entries, e));
    let ids = entry_ids(entries);
    if 0 <= j < entries.len() && entries[j].item.id == e.item.id && (forall|k: int|
        0 <= k < j ==> entries[k].item.id != e.item.id) {
        assert(ids[j] == e.item.id);
        lemma_first_index_found(ids, e.item.id, j);
        let f = first_index(ids, e.item.id)->0;
        if f < j {
            assert(ids[f] == entries[f].item.id);
        }
        assert(first_index(ids, e.item.id) == Some(j));
    }
    if forall|k: int| 0 <= k < entries.len() ==> entries[k].item.id != e.item.id {
        if first_index(ids, e.item.id) is Some {
            let f = first_index(ids, e.item.id)->0;
            assert(ids[f] == entries[f].item.id);
        }
    }
}

/// Merging imports never duplicates a track. When the library holds each track once, so
/// does the merged library; it holds exactly the tracks of the library and of the
/// imports; and every entry already in the library keeps its position.
pub proof fn lemma_merge_keeps_tracks_unique(
    entries: Seq<QueueEntryView>,
    imported: Seq<QueueEntryView>,
)
    requires
        entry_ids(entries).no_duplicates(),
    ensures
        entry_ids(merged(entries, imported)).no_duplicates(),
        merged(entries, imported).len() >= entries.len(),
        forall|j: int|
            0 <= j < entries.len() ==> (#[trigger] merged(entries, imported)[j]).item.id
                == entries[j].item.id,
        forall|id: Seq<char>|
            entry_ids(merged(entries, imported)).contains(id) <==> (entry_ids(entries).contains(id)
                || entry_ids(imported).contains(id)),
    decreases imported.len(),
{
    if imported.len() > 0 {
        let rest = imported.drop_last();
        let e = imported.last();
        lemma_merge_keeps_tracks_unique(entries, rest);
        let m = merged(entries, rest);
        let ids = entry_ids(m);
        let r = merged(entries, imported);
        assert(r == merge_one(m, e));
        assert(entry_ids(imported) =~= entry_ids(rest).push(e.item.id));
        let new_ids = match first_index(ids, e.item.id) {
            Some(j) => ids,
            None => ids.push(e.item.id),
        };
        match first_index(ids, e.item.id) {
            Some(j) => {
                assert(ids[j] == e.item.id);
                assert(entry_ids(m.update(j, refreshed(m[j], e))) =~= ids);
            },
            None => {
                if ids.contains(e.item.id) {
                    let k = choose|k: int| 0 <= k < ids.len() && ids[k] == e.item.id;
                    lemma_first_index_found(ids, e.item.id, k);
                }
                assert(entry_ids(m.push(e)) =~= ids.push(e.item.id));
            },
        }
        assert(entry_ids(r) == new_ids);
        assert(new_ids.contains(e.item.id)) by {
            match first_index(ids, e.item.id) {
                Some(j) => {
                    assert(new_ids[j] == e.item.id);
                },
                None => {
                    assert(new_ids[ids.len() as int] == e.item.id);
                },
            }
        }
        assert forall|id: Seq<char>|
            entry_ids(r).contains(id) <==> (entry_ids(entries).contains(id) || entry_ids(
                imported,
            ).contains(id)) by {
            assert(ids.contains(id) <==> (entry_ids(entries).contains(id) || entry_ids(
                rest,
            ).contains(id)));
            assert(entry_ids(imported)[rest.len() as int] == e.item.id);
            if new_ids.contains(id) {
                let k = choose|k: int| 0 <= k < new_ids.len() && new_ids[k] == id;
                if k < ids.len() {
                    assert(ids[k] == id);
                }
            }
            if ids.contains(id) {
                let k = choose|k: int| 0 <= k < ids.len() && ids[k] == id;
                assert(new_ids[k] == id);
            }
            if entry_ids(imported).contains(id) {
                let k = choose|k: int|
                    0 <= k < entry_ids(imported).len() && entry_ids(imported)[k] == id;
                if k < rest.len() {
                    assert(entry_ids(rest)[k] == id);
                }
            }
            if entry_ids(rest).contains(id) {
                let k = choose|k: int| 0 <= k < entry_ids(rest).len() && entry_ids(rest)[k] == id;
                assert(entry_ids(imported)[k] == id);
            }
        }
    }
}


/// An import yields each video at most once.
pub proof fn lemma_import_tracks_unique(cands: Seq<YtDlpMetadata>, dirty: bool)
    ensures
        entry_ids(tracks_of(cands, dirty)).no_duplicates(),
    decreases cands.len(),
{
    if cands.len() > 0 {
        lemma_import_tracks_unique(cands.drop_last(), dirty);
        let prev = tracks_of(cands.drop_last(), dirty);
        match track_of(cands.last(), dirty) {
            Some(e) => {
                if !has_entry_id(prev, e.item.id) {
                    assert(entry_ids(prev.push(e)) =~= entry_ids(prev).push(e.item.id));
                    assert forall|j: int| 0 <= j < entry_ids(prev).len() implies entry_ids(prev)[j]
                        != e.item.id by {
                        assert(prev[j].item.id == entry_ids(prev)[j]);
                    }
                }
            },
            None => {},
        }
    }
}


/// A line of yt-dlp's error output that reports a members-only video.
pub open spec fn is_member_only_line(line: Seq<char>) -> bool {
    contains_seq(line, "members-only content"@) || contains_seq(line, "members on level"@)
}

/// How many lines report a members-only video.
pub open spec fn member_only_count(lines: Seq<Seq<char>>) -> nat
    decreases lines.len(),
{
    if lines.len() == 0 {
        0
    } else {
        member_only_count(lines.drop_last()) + if is_member_only_line(lines.last()) {
            1nat
        } else {
            0nat
        }
    }
}

fn is_member_only_line_exec(line: &[char]) -> (r: bool)
    ensures
        r == is_member_only_line(line@),
{
    let a = chars_of("members-only content");
    let b = chars_of("members on level");
    contains_chars(line, a.as_slice()) || contains_chars(line, b.as_slice())
}

/// Counts the lines of yt-dlp's error output that report a members-only video.
pub fn member_only_error_count(stderr: &str) -> (res: usize)
    ensures
        res == member_only_count(lines_of(stderr@)),
{
    let lines = split_lines(stderr);
    let ghost ls = rows(lines@);
    let mut count: usize = 0;
    let mut i: usize = 0;
    while i < lines.len()
        invariant
            i <= lines.len(),
            ls == rows(lines@),
            ls == lines_of(stderr@),
            count == member_only_count(ls.take(i as int)),
            count <= i,
        decreases lines.len() - i,
    {
        assert(ls.take(i + 1).drop_last() =~= ls.take(i as int));
        if is_member_only_line_exec(lines[i].as_slice()) {
            count = count + 1;
        }
        i = i + 1;
    }
    assert(ls.take(ls.len() as int) =~= ls);
    count
}

/// The text of `hay` that `split(pat).nth(1)` gives: between the first occurrence of
/// `pat` and the next one (or the end).
pub open spec fn second_piece(hay: Seq<char>, pat: Seq<char>) -> Option<Seq<char>> {
    match first_from(hay, pat, 0) {
        Some(i) => {
            let start = i + pat.len();
            match first_from(hay, pat, start) {
                Some(j) => Some(hay.subrange(start, j)),
                None => Some(hay.subrange(start, hay.len() as int)),
            }
        },
        None => None,
    }
}

/// The text of `hay` before its first `':'` (all of it when there is none).
pub open spec fn before_colon(hay: Seq<char>) -> Seq<char> {
    match first_from(hay, seq![':'], 0) {
        Some(i) => hay.subrange(0, i),
        None => hay,
    }
}

/// The video ID that a members-only error line names, if any.
pub open spec fn member_only_id(line: Seq<char>) -> Option<Seq<char>> {
    if !is_member_only_line(line) {
        None
    } else {
        match second_piece(line, "ERROR: [youtube] "@) {
            Some(rest) => {
                let id = before_colon(rest);
                if is_video_id(id) {
                    Some(id)
                } else {
                    None
                }
            },
            None => None,
        }
    }
}

/// The members-only video IDs that the lines name, each once, in order of appearance.
pub open spec fn member_only_ids(lines: Seq<Seq<char>>) -> Seq<Seq<char>>
    decreases lines.len(),
{
    if lines.len() == 0 {
        seq![]
    } else {
        let prev = member_only_ids(lines.drop_last());
        match member_only_id(lines.last()) {
            Some(id) => if prev.contains(id) {
                prev
            } else {
                prev.push(id)
            },
            None => prev,
        }
    }
}

fn member_only_id_exec(line: &[char]) -> (res: Option<Vec<char>>)
    ensures
        match res {
            Some(v) => member_only_id(line@) == Some(v@),
            None => member_only_id(line@) is None,
        },
{
    if !is_member_only_line_exec(line) {
        return None;
    }
    let marker = chars_of("ERROR: [youtube] ");
    proof {
        reveal_strlit("ERROR: [youtube] ");
    }
    let i = match find_from(line, marker.as_slice(), 0) {
        Some(i) => i,
        None => return None,
    };
    assert(line@.len() == line.len());
    let start = i + marker.len();
    let end = match find_from(line, marker.as_slice(), start) {
        Some(j) => j,
        None => line.len(),
    };
    let mut rest: Vec<char> = Vec::new();
    let mut k: usize = start;
    while k < end
        invariant
            start <= k <= end <= line@.len(),
            rest@ =~= line@.subrange(start as int, k as int),
        decreases end - k,
    {
        rest.push(line[k]);
        k = k + 1;
    }
    let colon = vec![':'];
    assert(colon@ =~= seq![':']);
    let stop = match find_from(rest.as_slice(), colon.as_slice(), 0) {
        Some(j) => j,
        None => rest.len(),
    };
    let mut id: Vec<char> = Vec::new();
    let mut t: usize = 0;
    while t < stop
        invariant
            t <= stop <= rest@.len(),
            id@ =~= rest@.subrange(0, t as int),
        decreases stop - t,
    {
        id.push(rest[t]);
        t = t + 1;
    }
    assert(rest@.subrange(0, rest@.len() as int) =~= rest@);
    let text = string_of(id.as_slice());
    if is_youtube_video_id(text.as_str()) {
        Some(id)
    } else {
        None
    }
}

fn contains_row(rows_vec: &Vec<Vec<char>>, x: &Vec<char>) -> (r: bool)
    ensures
        r == rows(rows_vec@).contains(x@),
{
    let mut i: usize = 0;
    while i < rows_vec.len()
        invariant
            i <= rows_vec.len(),
            forall|j: int| 0 <= j < i ==> rows(rows_vec@)[j] != x@,
        decreases rows_vec.len() - i,
    {
        if crate::text::str_equal(
            string_of(rows_vec[i].as_slice()).as_str(),
            string_of(x.as_slice()).as_str(),
        ) {
            assert(rows(rows_vec@)[i as int] == x@);
            return true;
        }
        i = i + 1;
    }
    false
}

/// The members-only video IDs named in yt-dlp's error output, each once, in order.
pub fn member_only_video_ids(stderr: &str) -> (res: Vec<String>)
    ensures
        res.deep_view() == member_only_ids(lines_of(stderr@)),
{
    let lines = split_lines(stderr);
    let ghost ls = rows(lines@);
    let mut ids: Vec<Vec<char>> = Vec::new();
    let mut i: usize = 0;
    while i < lines.len()
        invariant
            i <= lines.len(),
            ls == rows(lines@),
            ls == lines_of(stderr@),
            rows(ids@) == member_only_ids(ls.take(i as int)),
        decreases lines.len() - i,
    {
        assert(ls.take(i + 1).drop_last() =~= ls.take(i as int));
        match member_only_id_exec(lines[i].as_slice()) {
            Some(id) => {
                if !contains_row(&ids, &id) {
                    let ghost before = rows(ids@);
                    ids.push(id);
                    assert(rows(ids@) =~= before.push(ids@.last()@));
                }
            },
            None => {},
        }
        i = i + 1;
    }
    assert(ls.take(ls.len() as int) =~= ls);
    let mut res: Vec<String> = Vec::new();
    let mut j: usize = 0;
    while j < ids.len()
        invariant
            j <= ids.len(),
            res.deep_view() =~= rows(ids@).take(j as int),
        decreases ids.len() - j,
    {
        let ghost before = res.deep_view();
        res.push(string_of(ids[j].as_slice()));
        assert(res.deep_view() =~= before.push(ids@[j as int]@));
        j = j + 1;
    }
    assert(rows(ids@).take(ids.len() as int) =~= rows(ids@));
    res
}


/// The first line that is not blank.
pub open spec fn first_nonblank(lines: Seq<Seq<char>>) -> Option<Seq<char>>
    decreases lines.len(),
{
    if lines.len() == 0 {
        None
    } else {
        match first_nonblank(lines.drop_last()) {
            Some(x) => Some(x),
            None => if trim_seq(lines.last()).len() > 0 {
                Some(lines.last())
            } else {
                None
            },
        }
    }
}

/// The message for an import that yielded `playable` tracks, given yt-dlp's error output.
pub open spec fn error_message(stderr: Seq<char>, playable: int) -> Seq<char> {
    let lines = lines_of(stderr);
    let skipped = member_only_count(lines);
    if playable == 0 && skipped > 0 {
        "no playable tracks found; skipped "@ + decimal_seq(skipped) + " members-only tracks"@
    } else {
        match first_nonblank(lines) {
            Some(detail) => "could not resolve YouTube metadata: "@ + detail,
            None => "no playable tracks found"@,
        }
    }
}

/// Explains a failed import: the members-only skips when nothing was playable, else
/// the first non-blank line of yt-dlp's error output.
pub fn metadata_error_message(stderr: &str, playable_tracks: usize) -> (res: String)
    ensures
        res@ == error_message(stderr@, playable_tracks as int),
{
    let skipped = member_only_error_count(stderr);
    if playable_tracks == 0 && skipped > 0 {
        let mut message = String::from_str("no playable tracks found; skipped ");
        let count = decimal_text(skipped as u64);
        message.append(count.as_str());
        message.append(" members-only tracks");
        return message;
    }
    let lines = split_lines(stderr);
    let ghost ls = rows(lines@);
    let mut i: usize = 0;
    while i < lines.len()
        invariant
            i <= lines.len(),
            ls == rows(lines@),
            ls == lines_of(stderr@),
            first_nonblank(ls.take(i as int)) is None,
            !(playable_tracks == 0 && member_only_count(ls) > 0),
        decreases lines.len() - i,
    {
        assert(ls.take(i + 1).drop_last() =~= ls.take(i as int));
        let trimmed = trim_chars(lines[i].as_slice());
        if trimmed.len() > 0 {
            assert(first_nonblank(ls.take(i + 1)) == Some(ls[i as int]));
            proof {
                lemma_first_nonblank_prefix(ls, i + 1);
            }
            let mut message = String::from_str("could not resolve YouTube metadata: ");
            let detail = string_of(lines[i].as_slice());
            message.append(detail.as_str());
            return message;
        }
        i = i + 1;
    }
    assert(ls.take(ls.len() as int) =~= ls);
    String::from_str("no playable tracks found")
}

/// The first non-blank line of a prefix, once found, is that of the whole list.
proof fn lemma_first_nonblank_prefix(lines: Seq<Seq<char>>, k: int)
    requires
        0 <= k <= lines.len(),
        first_nonblank(lines.take(k)) is Some,
    ensures
        first_nonblank(lines) == first_nonblank(lines.take(k)),
    decreases lines.len() - k,
{
    if k < lines.len() {
        assert(lines.take(k + 1).drop_last() =~= lines.take(k));
        lemma_first_nonblank_prefix(lines, k + 1);
    } else {
        assert(lines.take(k) =~= lines);
    }
}

/// How long yt-dlp may send nothing before its run is stopped, in milliseconds.
pub const METADATA_IDLE_TIMEOUT_MS: u64 = 60_000;

/// What to do when no line came from yt-dlp within a poll interval.
#[derive(Clone, Copy, Debug, PartialEq, Eq, Structural)]
pub enum IdleDecision {
    /// yt-dlp exited: stop reading.
    Finished,
    /// Nothing came for `METADATA_IDLE_TIMEOUT_MS`: stop yt-dlp and mark the run timed out.
    TimedOut,
    /// Keep waiting.
    Wait,
}

/// An exited yt-dlp ends the run; one that sent nothing for `METADATA_IDLE_TIMEOUT_MS`
/// (since the start or its last line) times out; otherwise the run goes on.
pub open spec fn idle_decision_of(exited: bool, idle_ms: u64) -> IdleDecision {
    if exited {
        IdleDecision::Finished
    } else if idle_ms >= METADATA_IDLE_TIMEOUT_MS {
        IdleDecision::TimedOut
    } else {
        IdleDecision::Wait
    }
}

/// Decides what a quiet poll interval means (see `idle_decision_of`).
pub fn idle_decision(exited: bool, idle_ms: u64) -> (res: IdleDecision)
    ensures
        res == idle_decision_of(exited, idle_ms),
{
    if exited {
        IdleDecision::Finished
    } else if idle_ms >= METADATA_IDLE_TIMEOUT_MS {
        IdleDecision::TimedOut
    } else {
        IdleDecision::Wait
    }
}

/// The message of a resolution that stopped for inactivity before any playable track.
pub open spec fn idle_timeout_message() -> Seq<char> {
    "metadata resolution stopped after 60 seconds without a playable track"@
}

/// What one source's metadata resolution yielded.
#[derive(Debug)]
pub struct MetadataResolution {
    pub entries: Vec<QueueEntry>,
    pub skipped_member_only: usize,
    pub skipped_member_only_ids: Vec<String>,
    pub timed_out: bool,
}

/// Concludes one source's resolution from the tracks it streamed and yt-dlp's error
/// output. Tracks streamed before an inactivity timeout are kept; with none, the
/// resolution fails with the timeout or with `metadata_error_message`.
pub fn finish_metadata_resolution(entries: Vec<QueueEntry>, stderr: &str, timed_out: bool) -> (res:
    Result<MetadataResolution, YouTubePlaybackError>)
    ensures
        entries@.len() > 0 ==> (res matches Ok(r) && entries_view(r.entries@) == entries_view(
            entries@,
        ) && r.skipped_member_only == member_only_count(lines_of(stderr@))
            && r.skipped_member_only_ids.deep_view() == member_only_ids(lines_of(stderr@))
            && r.timed_out == timed_out),
        entries@.len() == 0 && timed_out ==> (res matches Err(YouTubePlaybackError::Metadata(m))
            && m@ == idle_timeout_message()),
        entries@.len() == 0 && !timed_out ==> (res matches Err(YouTubePlaybackError::Metadata(m))
            && m@ == error_message(stderr@, 0)),
{
    let skipped_member_only = member_only_error_count(stderr);
    if entries.len() == 0 {
        if timed_out {
            return Err(
                YouTubePlaybackError::Metadata(
                    String::from_str(
                        "metadata resolution stopped after 60 seconds without a playable track",
                    ),
                ),
            );
        }
        return Err(YouTubePlaybackError::Metadata(metadata_error_message(stderr, 0)));
    }
    Ok(
        MetadataResolution {
            entries: entries,
            skipped_member_only: skipped_member_only,
            skipped_member_only_ids: member_only_video_ids(stderr),
            timed_out: timed_out,
        },
    )
}


/// The text of an error, as the application shows it.
pub open spec fn error_text(e: YouTubePlaybackError) -> Seq<char> {
    match e {
        YouTubePlaybackError::UnsupportedUrl => "only YouTube URLs are supported"@,
        YouTubePlaybackError::DependencyUnavailable { name, detail } => name@
            + " is not available: "@ + detail@,
        YouTubePlaybackError::Metadata(m) => "could not resolve YouTube metadata: "@ + m@,
        YouTubePlaybackError::Player(m) => "the audio player failed: "@ + m@,
        YouTubePlaybackError::QueueIndexOutOfBounds { index } => "queue index "@ + decimal_seq(
            index as nat,
        ) + " is outside the current queue"@,
        YouTubePlaybackError::CurrentQueueItem => "the current queue item cannot be removed"@,
        YouTubePlaybackError::TrackNotFound { id } => "track "@ + id@
            + " is not in the current queue"@,
        YouTubePlaybackError::InvalidVolume => "volume must be between 0 and 100"@,
        YouTubePlaybackError::InvalidTrackMetadata(m) => "track metadata is invalid: "@ + m@,
        YouTubePlaybackError::InvalidPlaylist(m) => "playlist is invalid: "@ + m@,
        YouTubePlaybackError::Library(m) => "could not access the imported library: "@ + m@,
    }
}

fn prefixed(prefix: &str, text: &str, suffix: &str) -> (res: String)
    ensures
        res@ == prefix@ + text@ + suffix@,
{
    let mut s = String::from_str(prefix);
    s.append(text);
    s.append(suffix);
    s
}

impl YouTubePlaybackError {
    /// The text of the error (see `error_text`).
    pub fn message(&self) -> (res: String)
        ensures
            res@ == error_text(*self),
    {
        proof {
            reveal_strlit("");
        }
        match self {
            YouTubePlaybackError::UnsupportedUrl => String::from_str(
                "only YouTube URLs are supported",
            ),
            YouTubePlaybackError::DependencyUnavailable { name, detail } => prefixed(
                name.as_str(),
                " is not available: ",
                detail.as_str(),
            ),
            YouTubePlaybackError::Metadata(m) => prefixed(
                "could not resolve YouTube metadata: ",
                m.as_str(),
                "",
            ),
            YouTubePlaybackError::Player(m) => prefixed("the audio player failed: ", m.as_str(), ""),
            YouTubePlaybackError::QueueIndexOutOfBounds { index } => {
                let n = decimal_text(*index as u64);
                prefixed("queue index ", n.as_str(), " is outside the current queue")
            },
            YouTubePlaybackError::CurrentQueueItem => String::from_str(
                "the current queue item cannot be removed",
            ),
            YouTubePlaybackError::TrackNotFound { id } => prefixed(
                "track ",
                id.as_str(),
                " is not in the current queue",
            ),
            YouTubePlaybackError::InvalidVolume => String::from_str(
                "volume must be between 0 and 100",
            ),
            YouTubePlaybackError::InvalidTrackMetadata(m) => prefixed(
                "track metadata is invalid: ",
                m.as_str(),
                "",
            ),
            YouTubePlaybackError::InvalidPlaylist(m) => prefixed(
                "playlist is invalid: ",
                m.as_str(),
                "",
            ),
            YouTubePlaybackError::Library(m) => prefixed(
                "could not access the imported library: ",
                m.as_str(),
                "",
            ),
        }
    }
}

/// The optional cookie-file arguments of yt-dlp.
pub open spec fn cookie_args(cookie_path: Option<Seq<char>>) -> Seq<Seq<char>> {
    match cookie_path {
        Some(p) => seq!["--cookies"@, p],
        None => seq![],
    }
}

/// The arguments that resolve the full metadata of a video, playlist or channel without
/// downloading it.
pub open spec fn full_metadata_args(source_url: Seq<char>, cookie_path: Option<Seq<char>>) -> Seq<
    Seq<char>,
> {
    seq![
        "--dump-json"@,
        "--yes-playlist"@,
        "--lazy-playlist"@,
        "--ignore-errors"@,
        "--retries"@,
        "1"@,
        "--extractor-retries"@,
        "1"@,
        "--skip-download"@,
        "--no-warnings"@,
        "--socket-timeout"@,
        "30"@,
    ] + cookie_args(cookie_path) + seq![source_url]
}

/// The arguments that list a collection's entries without resolving each video.
pub open spec fn discovery_args(source_url: Seq<char>, cookie_path: Option<Seq<char>>) -> Seq<
    Seq<char>,
> {
    seq![
        "--dump-json"@,
        "--flat-playlist"@,
        "--yes-playlist"@,
        "--ignore-errors"@,
        "--skip-download"@,
        "--no-warnings"@,
        "--socket-timeout"@,
        "30"@,
    ] + cookie_args(cookie_path) + seq![source_url]
}

pub open spec fn opt_str_view(s: Option<&str>) -> Option<Seq<char>> {
    match s {
        Some(x) => Some(x@),
        None => None,
    }
}

fn push_tail(arguments: &mut Vec<String>, source_url: &str, cookie_path: Option<&str>)
    ensures
        final(arguments).deep_view() == old(arguments).deep_view() + cookie_args(
            opt_str_view(cookie_path),
        ) + seq![source_url@],
{
    let ghost start = arguments.deep_view();
    match cookie_path {
        Some(p) => {
            arguments.push(String::from_str("--cookies"));
            arguments.push(String::from_str(p));
        },
        None => {},
    }
    arguments.push(String::from_str(source_url));
    assert(arguments.deep_view() =~= start + cookie_args(opt_str_view(cookie_path)) + seq![
        source_url@,
    ]);
}

/// The yt-dlp arguments that resolve full metadata (see `full_metadata_args`); the
/// cookie file, where there is one, is passed by its path.
pub fn metadata_arguments(source_url: &str, cookie_path: Option<&str>) -> (res: Vec<String>)
    ensures
        res.deep_view() == full_metadata_args(source_url@, opt_str_view(cookie_path)),
{
    let mut arguments: Vec<String> = Vec::new();
    arguments.push(String::from_str("--dump-json"));
    arguments.push(String::from_str("--yes-playlist"));
    arguments.push(String::from_str("--lazy-playlist"));
    arguments.push(String::from_str("--ignore-errors"));
    arguments.push(String::from_str("--retries"));
    arguments.push(String::from_str("1"));
    arguments.push(String::from_str("--extractor-retries"));
    arguments.push(String::from_str("1"));
    arguments.push(String::from_str("--skip-download"));
    arguments.push(String::from_str("--no-warnings"));
    arguments.push(String::from_str("--socket-timeout"));
    arguments.push(String::from_str("30"));
    let ghost head = arguments.deep_view();
    assert(head =~= seq![
        "--dump-json"@,
        "--yes-playlist"@,
        "--lazy-playlist"@,
        "--ignore-errors"@,
        "--retries"@,
        "1"@,
        "--extractor-retries"@,
        "1"@,
        "--skip-download"@,
        "--no-warnings"@,
        "--socket-timeout"@,
        "30"@,
    ]);
    push_tail(&mut arguments, source_url, cookie_path);
    arguments
}

/// The yt-dlp arguments that discover a collection's entries (see `discovery_args`).
pub fn discovery_metadata_arguments(source_url: &str, cookie_path: Option<&str>) -> (res: Vec<
    String,
>)
    ensures
        res.deep_view() == discovery_args(source_url@, opt_str_view(cookie_path)),
{
    let mut arguments: Vec<String> = Vec::new();
    arguments.push(String::from_str("--dump-json"));
    arguments.push(String::from_str("--flat-playlist"));
    arguments.push(String::from_str("--yes-playlist"));
    arguments.push(String::from_str("--ignore-errors"));
    arguments.push(String::from_str("--skip-download"));
    arguments.push(String::from_str("--no-warnings"));
    arguments.push(String::from_str("--socket-timeout"));
    arguments.push(String::from_str("30"));
    let ghost head = arguments.deep_view();
    assert(head =~= seq![
        "--dump-json"@,
        "--flat-playlist"@,
        "--yes-playlist"@,
        "--ignore-errors"@,
        "--skip-download"@,
        "--no-warnings"@,
        "--socket-timeout"@,
        "30"@,
    ]);
    push_tail(&mut arguments, source_url, cookie_path);
    arguments
}


/// Some record of a stream yields no playable track.
pub open spec fn stream_has_empty_record(records: Seq<YtDlpMetadata>) -> bool {
    exists|i: int| 0 <= i < records.len() && import_tracks(#[trigger] records[i], false).len() == 0
}

/// The tracks of a stream of records, merged in order.
pub open spec fn streamed_tracks(records: Seq<YtDlpMetadata>) -> Seq<QueueEntryView>
    decreases records.len(),
{
    if records.len() == 0 {
        seq![]
    } else {
        merged(streamed_tracks(records.drop_last()), import_tracks(records.last(), false))
    }
}

/// The tracks of yt-dlp's streamed output, one record per non-blank line, merged in
/// order. A record without a playable track fails the whole stream, as does a stream
/// without records (`Metadata("no playable tracks found")`).
pub fn parse_streamed_metadata(records: Vec<YtDlpMetadata>) -> (res: Result<
    Vec<QueueEntry>,
    YouTubePlaybackError,
>)
    ensures
        stream_has_empty_record(records@) ==> (res matches Err(YouTubePlaybackError::Metadata(m))
            && m@ == "no playable tracks found in the YouTube URL"@),
        !stream_has_empty_record(records@) && records@.len() == 0 ==> (res matches Err(
            YouTubePlaybackError::Metadata(m),
        ) && m@ == "no playable tracks found"@),
        !stream_has_empty_record(records@) && records@.len() > 0 ==> (res matches Ok(v)
            && entries_view(v@) == streamed_tracks(records@)),
{
    let ghost rs = records@;
    let mut entries: Vec<QueueEntry> = Vec::new();
    for record in it: records.into_iter()
        invariant
            it.seq() == rs,
            entries_view(entries@) == streamed_tracks(rs.take(it.index() as int)),
            !stream_has_empty_record(rs.take(it.index() as int)),
            it.index() > 0 ==> entries@.len() > 0,
    {
        let ghost k = it.index();
        assert(rs.take(k + 1).drop_last() =~= rs.take(k as int));
        assert(rs.take(k + 1).last() == record);
        match parse_import_metadata(record) {
            Ok(tracks) => {
                let ghost before = entries@.len();
                merge_queue_entries(&mut entries, tracks);
                proof {
                    lemma_merge_keeps_length(
                        streamed_tracks(rs.take(k as int)),
                        import_tracks(rs[k as int], false),
                    );
                    assert forall|i: int|
                        0 <= i < rs.take(k + 1).len() implies import_tracks(
                        #[trigger] rs.take(k + 1)[i],
                        false,
                    ).len() != 0 by {
                        if i < k {
                            assert(rs.take(k + 1)[i] == rs.take(k as int)[i]);
                        }
                    }
                }
            },
            Err(e) => {
                proof {
                    assert(rs[k as int] == record);
                }
                return Err(e);
            },
        }
    }
    assert(rs.take(rs.len() as int) =~= rs);
    if entries.len() == 0 {
        return Err(YouTubePlaybackError::Metadata(String::from_str("no playable tracks found")));
    }
    Ok(entries)
}

/// Merging never shortens the library, and a merge of a non-empty import is non-empty.
proof fn lemma_merge_keeps_length(entries: Seq<QueueEntryView>, imported: Seq<QueueEntryView>)
    ensures
        merged(entries, imported).len() >= entries.len(),
        imported.len() > 0 ==> merged(entries, imported).len() > 0,
    decreases imported.len(),
{
    if imported.len() > 0 {
        lemma_merge_keeps_length(entries, imported.drop_last());
    }
}


/// What a batch import of several sources yielded.
#[derive(Debug)]
pub struct ResolvedYouTubeImport {
    pub entries: Vec<QueueEntry>,
    pub skipped_member_only: usize,
    pub skipped_member_only_ids: Vec<String>,
    pub timed_out_sources: usize,
}

/// `a` followed by the values of `b` that it lacks, each once.
pub open spec fn union_ids(a: Seq<Seq<char>>, b: Seq<Seq<char>>) -> Seq<Seq<char>>
    decreases b.len(),
{
    if b.len() == 0 {
        a
    } else {
        let prev = union_ids(a, b.drop_last());
        if prev.contains(b.last()) {
            prev
        } else {
            prev.push(b.last())
        }
    }
}

fn contains_string(values: &Vec<String>, x: &String) -> (r: bool)
    ensures
        r == values.deep_view().contains(x@),
{
    let mut i: usize = 0;
    while i < values.len()
        invariant
            i <= values.len(),
            forall|j: int| 0 <= j < i ==> values.deep_view()[j] != x@,
        decreases values.len() - i,
    {
        assert(values.deep_view()[i as int] == values@[i as int]@);
        if values[i] == *x {
            return true;
        }
        i = i + 1;
    }
    false
}

/// The source URLs of a batch import, each validated. An empty batch is refused with
/// `Metadata("at least one YouTube URL is required")`; any URL that is not accepted
/// refuses the whole batch with `UnsupportedUrl`.
pub fn validate_import_sources(source_urls: &Vec<String>) -> (res: Result<
    Vec<ParsedUrl>,
    YouTubePlaybackError,
>)
    ensures
        source_urls@.len() == 0 ==> (res matches Err(YouTubePlaybackError::Metadata(m)) && m@
            == "at least one YouTube URL is required"@),
        source_urls@.len() > 0 && (exists|i: int|
            0 <= i < source_urls@.len() && accepted_url(#[trigger] source_urls@[i]@) is None)
            ==> res matches Err(YouTubePlaybackError::UnsupportedUrl),
        source_urls@.len() > 0 && (forall|i: int|
            0 <= i < source_urls@.len() ==> accepted_url(#[trigger] source_urls@[i]@) is Some)
            ==> (res matches Ok(v) && v@.len() == source_urls@.len() && forall|i: int|
            0 <= i < v@.len() ==> Some(#[trigger] v@[i]@) == accepted_url(source_urls@[i]@)),
{
    if source_urls.len() == 0 {
        return Err(
            YouTubePlaybackError::Metadata(String::from_str("at least one YouTube URL is required")),
        );
    }
    let mut parsed: Vec<ParsedUrl> = Vec::new();
    let mut i: usize = 0;
    while i < source_urls.len()
        invariant
            i <= source_urls.len(),
            parsed@.len() == i,
            forall|j: int|
                0 <= j < i ==> Some(#[trigger] parsed@[j]@) == accepted_url(source_urls@[j]@),
        decreases source_urls.len() - i,
    {
        match validate_youtube_url(source_urls[i].as_str()) {
            Ok(p) => parsed.push(p),
            Err(e) => {
                assert(accepted_url(source_urls@[i as int]@) is None);
                return Err(e);
            },
        }
        i = i + 1;
    }
    assert forall|j: int| 0 <= j < source_urls@.len() implies accepted_url(
        #[trigger] source_urls@[j]@,
    ) is Some by {
        assert(Some(parsed@[j]@) == accepted_url(source_urls@[j]@));
    }
    Ok(parsed)
}

impl ResolvedYouTubeImport {
    /// An import that has resolved no source yet.
    pub fn empty() -> (res: ResolvedYouTubeImport)
        ensures
            res.entries@.len() == 0,
            res.skipped_member_only == 0,
            res.skipped_member_only_ids@.len() == 0,
            res.timed_out_sources == 0,
    {
        ResolvedYouTubeImport {
            entries: Vec::new(),
            skipped_member_only: 0,
            skipped_member_only_ids: Vec::new(),
            timed_out_sources: 0,
        }
    }

    /// The number of imported tracks.
    pub fn track_count(&self) -> (res: usize)
        ensures
            res == self.entries@.len(),
    {
        self.entries.len()
    }

    /// The number of members-only videos that were skipped.
    pub fn skipped_member_only_count(&self) -> (res: usize)
        ensures
            res == self.skipped_member_only,
    {
        self.skipped_member_only
    }

    /// The number of sources whose resolution stopped for inactivity.
    pub fn timed_out_source_count(&self) -> (res: usize)
        ensures
            res == self.timed_out_sources,
    {
        self.timed_out_sources
    }

    /// Adds one source's resolution: its tracks merge into the import, its skip counts
    /// add up and its skipped IDs join those already seen.
    pub fn absorb_resolution(&mut self, resolution: MetadataResolution)
        requires
            old(self).skipped_member_only + resolution.skipped_member_only <= usize::MAX,
            old(self).timed_out_sources < usize::MAX,
        ensures
            entries_view(final(self).entries@) == merged(
                entries_view(old(self).entries@),
                entries_view(resolution.entries@),
            ),
            final(self).skipped_member_only == old(self).skipped_member_only
                + resolution.skipped_member_only,
            final(self).skipped_member_only_ids.deep_view() == union_ids(
                old(self).skipped_member_only_ids.deep_view(),
                resolution.skipped_member_only_ids.deep_view(),
            ),
            final(self).timed_out_sources == old(self).timed_out_sources + if resolution.timed_out {
                1int
            } else {
                0int
            },
    {
        self.skipped_member_only = self.skipped_member_only + resolution.skipped_member_only;
        let ghost b = resolution.skipped_member_only_ids.deep_view();
        let ghost a = self.skipped_member_only_ids.deep_view();
        let mut i: usize = 0;
        while i < resolution.skipped_member_only_ids.len()
            invariant
                i <= resolution.skipped_member_only_ids.len(),
                b == resolution.skipped_member_only_ids.deep_view(),
                self.skipped_member_only_ids.deep_view() == union_ids(a, b.take(i as int)),
                a == old(self).skipped_member_only_ids.deep_view(),
                self.skipped_member_only == old(self).skipped_member_only
                    + resolution.skipped_member_only,
                self.timed_out_sources == old(self).timed_out_sources,
                old(self).timed_out_sources < usize::MAX,
                self.entries == old(self).entries,
            decreases resolution.skipped_member_only_ids.len() - i,
        {
            assert(b.take(i + 1).drop_last() =~= b.take(i as int));
            assert(b.take(i + 1).last() == resolution.skipped_member_only_ids@[i as int]@);
            let id = &resolution.skipped_member_only_ids[i];
            if !contains_string(&self.skipped_member_only_ids, id) {
                let ghost before = self.skipped_member_only_ids.deep_view();
                self.skipped_member_only_ids.push(id.clone());
                assert(self.skipped_member_only_ids.deep_view() =~= before.push(id@));
            }
            i = i + 1;
        }
        assert(b.take(b.len() as int) =~= b);
        if resolution.timed_out {
            self.timed_out_sources = self.timed_out_sources + 1;
        }
        merge_queue_entries(&mut self.entries, resolution.entries);
    }

    /// Concludes a batch import; one that yielded no track fails with
    /// `Metadata("no playable tracks found")`.
    pub fn finish(self) -> (res: Result<ResolvedYouTubeImport, YouTubePlaybackError>)
        ensures
            self.entries@.len() == 0 ==> (res matches Err(YouTubePlaybackError::Metadata(m)) && m@
                == "no playable tracks found"@),
            self.entries@.len() > 0 ==> (res matches Ok(r) && r == self),
    {
        if self.entries.len() == 0 {
            return Err(YouTubePlaybackError::Metadata(String::from_str("no playable tracks found")));
        }
        Ok(self)
    }
}


proof fn lemma_trim_start_shape(s: Seq<char>)
    ensures
        trim_start_seq(s).len() == 0 || !is_white_space(trim_start_seq(s)[0]),
    decreases s.len(),
{
    if s.len() > 0 && is_white_space(s[0]) {
        lemma_trim_start_shape(s.drop_first());
    }
}

proof fn lemma_trim_end_shape(s: Seq<char>)
    ensures
        trim_end_seq(s).len() <= s.len(),
        trim_end_seq(s) == s.subrange(0, trim_end_seq(s).len() as int),
        trim_end_seq(s).len() == 0 || !is_white_space(trim_end_seq(s).last()),
    decreases s.len(),
{
    if s.len() > 0 && is_white_space(s.last()) {
        lemma_trim_end_shape(s.drop_last());
        let t = trim_end_seq(s.drop_last());
        assert(s.drop_last().subrange(0, t.len() as int) =~= s.subrange(0, t.len() as int));
    } else {
        assert(s.subrange(0, s.len() as int) =~= s);
    }
}

/// Trimming twice trims no more than trimming once.
pub proof fn lemma_trim_idempotent(s: Seq<char>)
    ensures
        trim_seq(trim_seq(s)) == trim_seq(s),
{
    let u = trim_start_seq(s);
    let t = trim_end_seq(u);
    lemma_trim_start_shape(s);
    lemma_trim_end_shape(u);
    if t.len() > 0 {
        assert(t[0] == u[0]);
        assert(trim_start_seq(t) == t);
        assert(trim_end_seq(t) == t);
    } else {
        assert(trim_start_seq(t) == t);
    }
}

/// Each value is trimmed and non-blank, and no value repeats an earlier one ignoring ASCII
/// case.
pub open spec fn is_normalized(r: Seq<Seq<char>>) -> bool {
    forall|k: int|
        0 <= k < r.len() ==> trim_seq(#[trigger] r[k]) == r[k] && r[k].len() > 0 && !has_caseless(
            r.take(k),
            r[k],
        )
}

proof fn lemma_normalized_shape(values: Seq<Seq<char>>)
    ensures
        is_normalized(normalized_values(values)),
    decreases values.len(),
{
    if values.len() > 0 {
        lemma_normalized_shape(values.drop_last());
        let prev = normalized_values(values.drop_last());
        let g = trim_seq(values.last());
        if !(g.len() == 0 || has_caseless(prev, g)) {
            lemma_trim_idempotent(values.last());
            let r = prev.push(g);
            assert forall|k: int| 0 <= k < r.len() implies trim_seq(#[trigger] r[k]) == r[k]
                && r[k].len() > 0 && !has_caseless(r.take(k), r[k]) by {
                if k < prev.len() {
                    assert(r[k] == prev[k]);
                    assert(r.take(k) =~= prev.take(k));
                } else {
                    assert(r.take(k) =~= prev);
                }
            }
        }
    }
}

proof fn lemma_normalized_fixed(r: Seq<Seq<char>>, k: int)
    requires
        is_normalized(r),
        0 <= k <= r.len(),
    ensures
        normalized_values(r.take(k)) == r.take(k),
    decreases k,
{
    if k > 0 {
        lemma_normalized_fixed(r, k - 1);
        assert(r.take(k).drop_last() =~= r.take(k - 1));
        assert(r.take(k).last() == r[k - 1]);
        assert(trim_seq(r[k - 1]) == r[k - 1]);
        assert(r.take(k - 1).push(r[k - 1]) =~= r.take(k));
    } else {
        assert(r.take(0) =~= Seq::<Seq<char>>::empty());
    }
}

/// Normalizing genres (or tags, or categories) a second time changes nothing.
pub proof fn lemma_normalize_idempotent(values: Seq<Seq<char>>)
    ensures
        normalized_values(normalized_values(values)) == normalized_values(values),
        is_normalized(normalized_values(values)),
{
    let r = normalized_values(values);
    lemma_normalized_shape(values);
    lemma_normalized_fixed(r, r.len() as int);
    assert(r.take(r.len() as int) =~= r);
}


/// The arguments that start mpv as an audio-only player of the best audio, controlled
/// through an IPC socket, at a volume, with the session cookies where there are some.
pub open spec fn player_args(socket_path: Seq<char>, volume: u8, cookie_path: Option<Seq<char>>) -> Seq<
    Seq<char>,
> {
    seq![
        "--no-config"@,
        "--idle=yes"@,
        "--no-terminal"@,
        "--video=no"@,
        "--audio-display=no"@,
        "--ytdl-format=bestaudio"@,
        "--input-ipc-server="@ + socket_path,
        "--volume="@ + decimal_seq(volume as nat),
    ] + match cookie_path {
        Some(p) => seq!["--ytdl-raw-options=cookies="@ + p],
        None => seq![],
    }
}

/// The mpv arguments (see `player_args`).
pub fn mpv_arguments(socket_path: &str, volume_percent: u8, cookie_path: Option<&str>) -> (res: Vec<
    String,
>)
    ensures
        res.deep_view() == player_args(socket_path@, volume_percent, opt_str_view(cookie_path)),
{
    let mut arguments: Vec<String> = Vec::new();
    arguments.push(String::from_str("--no-config"));
    arguments.push(String::from_str("--idle=yes"));
    arguments.push(String::from_str("--no-terminal"));
    arguments.push(String::from_str("--video=no"));
    arguments.push(String::from_str("--audio-display=no"));
    arguments.push(String::from_str("--ytdl-format=bestaudio"));
    arguments.push(prefixed("--input-ipc-server=", socket_path, ""));
    let volume = decimal_text(volume_percent as u64);
    arguments.push(prefixed("--volume=", volume.as_str(), ""));
    match cookie_path {
        Some(p) => arguments.push(prefixed("--ytdl-raw-options=cookies=", p, "")),
        None => {},
    }
    proof {
        reveal_strlit("");
    }
    assert(arguments.deep_view() =~= player_args(
        socket_path@,
        volume_percent,
        opt_str_view(cookie_path),
    ));
    arguments
}

} // verus!
