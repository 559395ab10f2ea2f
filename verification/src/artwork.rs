//! Album artwork of YouTube videos: which downloads are images, where they are cached,
//! which cached files are evicted, and how long a failed video is left alone.
use vstd::prelude::*;

use std::collections::VecDeque;

use crate::metadata::is_video_id;

verus! {

broadcast use vstd::std_specs::vecdeque::group_vec_dequeue_axioms;

/// The size limit of the artwork cache.
pub const ARTWORK_CACHE_LIMIT: u64 = 536_870_912;

/// The largest artwork file that is accepted.
pub const ARTWORK_MAX_BYTES: u64 = 8_388_608;

/// How many failed videos are remembered.
pub const MAX_FAILURES: usize = 256;

/// How long a failed video is not fetched again.
pub const FAILURE_TTL_MS: u64 = 5_000;

/// A JPEG, PNG or WebP file signature starts the bytes.
pub open spec fn image_signature(b: Seq<u8>) -> bool {
    ||| (b.len() >= 3 && b[0] == 0xff && b[1] == 0xd8 && b[2] == 0xff)
    ||| (b.len() >= 8 && b[0] == 0x89 && b[1] == 0x50 && b[2] == 0x4e && b[3] == 0x47 && b[4]
        == 0x0d && b[5] == 0x0a && b[6] == 0x1a && b[7] == 0x0a)
    ||| (b.len() >= 12 && b[0] == 0x52 && b[1] == 0x49 && b[2] == 0x46 && b[3] == 0x46 && b[8]
        == 0x57 && b[9] == 0x45 && b[10] == 0x42 && b[11] == 0x50)
}

/// Whether the bytes start with a JPEG, PNG or WebP signature.
pub fn is_image_signature(bytes: &[u8]) -> (r: bool)
    ensures
        r == image_signature(bytes@),
{
    let n = bytes.len();
    (n >= 3 && bytes[0] == 0xff && bytes[1] == 0xd8 && bytes[2] == 0xff) || (n >= 8 && bytes[0]
        == 0x89 && bytes[1] == 0x50 && bytes[2] == 0x4e && bytes[3] == 0x47 && bytes[4] == 0x0d
        && bytes[5] == 0x0a && bytes[6] == 0x1a && bytes[7] == 0x0a) || (n >= 12 && bytes[0]
        == 0x52 && bytes[1] == 0x49 && bytes[2] == 0x46 && bytes[3] == 0x46 && bytes[8] == 0x57
        && bytes[9] == 0x45 && bytes[10] == 0x42 && bytes[11] == 0x50)
}

/// Whether artwork may be fetched for an ID: only YouTube video IDs, which are safe in
/// file names and URLs.
pub fn is_youtube_video_id(value: &str) -> (r: bool)
    ensures
        r == is_video_id(value@),
{
    crate::metadata::is_youtube_video_id(value)
}

/// A download is kept when it is within the size limit and is an image.
pub open spec fn accepted_image(b: Seq<u8>) -> bool {
    b.len() <= ARTWORK_MAX_BYTES && image_signature(b)
}

/// Keeps downloaded bytes only when they are an image within the size limit.
pub fn accept_image(bytes: Vec<u8>) -> (res: Option<Vec<u8>>)
    ensures
        accepted_image(bytes@) ==> res == Some(bytes),
        !accepted_image(bytes@) ==> res is None,
{
    if bytes.len() as u64 <= ARTWORK_MAX_BYTES && is_image_signature(bytes.as_slice()) {
        Some(bytes)
    } else {
        None
    }
}

/// How many bytes of a download are read: one past the size limit, so that an oversized
/// stream shows itself without being read to its end.
pub fn image_read_limit() -> (n: u64)
    ensures
        n == ARTWORK_MAX_BYTES + 1,
{
    ARTWORK_MAX_BYTES + 1
}

/// A response is read only when it succeeded, announces no more than the size limit
/// and declares an image type.
pub open spec fn response_is_image(
    success: bool,
    content_length: Option<u64>,
    content_type: Seq<char>,
) -> bool {
    &&& success
    &&& !(content_length matches Some(n) && n > ARTWORK_MAX_BYTES)
    &&& content_type.len() >= 6 && content_type.subrange(0, 6) == "image/"@
}

/// Whether an HTTP response may hold artwork (see `response_is_image`).
pub fn accepts_response(success: bool, content_length: Option<u64>, content_type: &str) -> (r: bool)
    ensures
        r == response_is_image(success, content_length, content_type@),
{
    if !success {
        return false;
    }
    match content_length {
        Some(n) => if n > ARTWORK_MAX_BYTES {
            return false;
        },
        None => {},
    }
    let c = crate::text::chars_of(content_type);
    proof {
        reveal_strlit("image/");
    }
    if c.len() < 6 {
        return false;
    }
    let r = c[0] == 'i' && c[1] == 'm' && c[2] == 'a' && c[3] == 'g' && c[4] == 'e' && c[5] == '/';
    proof {
        let pat = seq!['i', 'm', 'a', 'g', 'e', '/'];
        assert("image/"@ =~= pat);
        let sub = c@.subrange(0, 6);
        if r {
            assert(sub =~= pat);
        }
        if sub == pat {
            assert(sub[0] == pat[0] && sub[1] == pat[1] && sub[2] == pat[2]);
            assert(sub[3] == pat[3] && sub[4] == pat[4] && sub[5] == pat[5]);
        }
    }
    r
}

/// The URL of a video's artwork in one quality.
pub open spec fn artwork_url(video_id: Seq<char>, quality: Seq<char>) -> Seq<char> {
    "https://i.ytimg.com/vi/"@ + video_id + "/"@ + quality + ".jpg"@
}

/// The cache index key of a video's artwork in one quality.
pub open spec fn cache_key(video_id: Seq<char>, quality: Seq<char>) -> Seq<char> {
    "youtube:"@ + video_id + ":"@ + quality
}

/// The cached file of a video's artwork in one quality, relative to the data directory.
pub open spec fn relative_artwork_path(video_id: Seq<char>, quality: Seq<char>) -> Seq<char> {
    "artwork/"@ + video_id + "-"@ + quality + ".jpg"@
}

/// The artwork URL (see `artwork_url`).
pub fn artwork_url_of(video_id: &str, quality: &str) -> (res: String)
    ensures
        res@ == artwork_url(video_id@, quality@),
{
    let mut s = String::from_str("https://i.ytimg.com/vi/");
    s.append(video_id);
    s.append("/");
    s.append(quality);
    s.append(".jpg");
    s
}

/// The cache index key (see `cache_key`).
pub fn cache_key_of(video_id: &str, quality: &str) -> (res: String)
    ensures
        res@ == cache_key(video_id@, quality@),
{
    let mut s = String::from_str("youtube:");
    s.append(video_id);
    s.append(":");
    s.append(quality);
    s
}

/// The relative cached file (see `relative_artwork_path`).
pub fn relative_path_of(video_id: &str, quality: &str) -> (res: String)
    ensures
        res@ == relative_artwork_path(video_id@, quality@),
{
    let mut s = String::from_str("artwork/");
    s.append(video_id);
    s.append("-");
    s.append(quality);
    s.append(".jpg");
    s
}

/// The artwork qualities, best first.
pub fn qualities() -> (res: Vec<String>)
    ensures
        res.deep_view() == seq!["maxresdefault"@, "hqdefault"@],
{
    let mut v: Vec<String> = Vec::new();
    v.push(String::from_str("maxresdefault"));
    v.push(String::from_str("hqdefault"));
    assert(v.deep_view() =~= seq!["maxresdefault"@, "hqdefault"@]);
    v
}

/// One cached file, as the cache index lists it: key, relative path and size.
pub struct CachedArtwork {
    pub cache_key: String,
    pub relative_path: String,
    pub byte_size: u64,
}

/// The files to evict, in index order (least recently used first), until the remaining
/// total is within the limit; the total goes down by each file's size, saturating.
pub open spec fn evicted(remaining: u64, rows: Seq<CachedArtwork>, limit: u64) -> Seq<Seq<char>>
    decreases rows.len(),
{
    if rows.len() == 0 || remaining <= limit {
        seq![]
    } else {
        let next = if remaining >= rows[0].byte_size {
            (remaining - rows[0].byte_size) as u64
        } else {
            0
        };
        seq![rows[0].relative_path@] + evicted(next, rows.drop_first(), limit)
    }
}

/// Chooses which cached files to evict so that the cache fits its limit again (see
/// `evicted`); nothing when the total already fits.
pub fn select_evictions(total: u64, rows: &Vec<CachedArtwork>, limit: u64) -> (res: Vec<String>)
    ensures
        res.deep_view() == evicted(total, rows@, limit),
{
    let mut remaining = total;
    let mut res: Vec<String> = Vec::new();
    let mut i: usize = 0;
    assert(rows@.subrange(0, rows@.len() as int) =~= rows@);
    while i < rows.len()
        invariant
            i <= rows@.len(),
            evicted(total, rows@, limit) == res.deep_view() + evicted(
                remaining,
                rows@.subrange(i as int, rows@.len() as int),
                limit,
            ),
        decreases rows@.len() - i,
    {
        let ghost rest = rows@.subrange(i as int, rows@.len() as int);
        if remaining <= limit {
            assert(evicted(remaining, rest, limit) =~= Seq::<Seq<char>>::empty());
            assert(res.deep_view() + seq![] =~= res.deep_view());
            return res;
        }
        assert(rest[0] == rows@[i as int]);
        assert(rest.drop_first() =~= rows@.subrange(i + 1, rows@.len() as int));
        let ghost before = res.deep_view();
        let ghost old_remaining = remaining;
        res.push(rows[i].relative_path.clone());
        assert(res.deep_view() =~= before.push(rows@[i as int].relative_path@));
        remaining = remaining.saturating_sub(rows[i].byte_size);
        assert(before + evicted(old_remaining, rest, limit) =~= res.deep_view() + evicted(
            remaining,
            rows@.subrange(i + 1, rows@.len() as int),
            limit,
        ));
        i = i + 1;
    }
    assert(rows@.subrange(i as int, rows@.len() as int).len() == 0);
    assert(res.deep_view() + seq![] =~= res.deep_view());
    res
}

/// The total size of cached files.
pub open spec fn total_size(rows: Seq<CachedArtwork>) -> nat
    decreases rows.len(),
{
    if rows.len() == 0 {
        0
    } else {
        rows[0].byte_size as nat + total_size(rows.drop_first())
    }
}

/// When the total is the sum of the listed sizes, eviction takes files from the front of
/// the list (least recently used first) and the files it keeps fit within the limit.
pub proof fn lemma_evictions_fit_limit(rows: Seq<CachedArtwork>, limit: u64)
    requires
        total_size(rows) <= u64::MAX,
    ensures
        evicted(total_size(rows) as u64, rows, limit).len() <= rows.len(),
        forall|i: int|
            0 <= i < evicted(total_size(rows) as u64, rows, limit).len() ==> #[trigger] evicted(
                total_size(rows) as u64,
                rows,
                limit,
            )[i] == rows[i].relative_path@,
        total_size(rows.skip(evicted(total_size(rows) as u64, rows, limit).len() as int)) <= limit,
    decreases rows.len(),
{
    let total = total_size(rows) as u64;
    if rows.len() == 0 || total <= limit {
        assert(rows.skip(0) =~= rows);
    } else {
        let rest = rows.drop_first();
        assert(total >= rows[0].byte_size);
        let next = (total - rows[0].byte_size) as u64;
        assert(next == total_size(rest));
        lemma_evictions_fit_limit(rest, limit);
        let e = evicted(total, rows, limit);
        let er = evicted(next, rest, limit);
        assert(e == seq![rows[0].relative_path@] + er);
        assert forall|i: int| 0 <= i < e.len() implies #[trigger] e[i] == rows[i].relative_path@ by {
            if i > 0 {
                assert(e[i] == er[i - 1]);
                assert(rest[i - 1] == rows[i]);
            }
        }
        assert(rows.skip(e.len() as int) =~= rest.skip(er.len() as int));
    }
}

/// Videos whose artwork could not be fetched, each with the time until which it is not
/// fetched again; at most `MAX_FAILURES`, oldest first.
pub struct FailureMemory {
    failures: VecDeque<(String, String, u64)>,
}

/// The mathematical value of a remembered failure: directory, video ID and expiry.
pub type FailureView = (Seq<char>, Seq<char>, u64);

pub open spec fn failure_view(f: (String, String, u64)) -> FailureView {
    (f.0@, f.1@, f.2)
}

/// The failures that have not expired at `now`.
pub open spec fn live_failures(fs: Seq<FailureView>, now: u64) -> Seq<FailureView> {
    fs.filter(|f: FailureView| f.2 > now)
}

/// Some failure is for this directory and video.
pub open spec fn has_failure(fs: Seq<FailureView>, directory: Seq<char>, video_id: Seq<char>) -> bool {
    exists|k: int| 0 <= k < fs.len() && (#[trigger] fs[k]).0 == directory && fs[k].1 == video_id
}

/// The failures after one more: the oldest is dropped when the memory is full.
pub open spec fn failure_added(fs: Seq<FailureView>, f: FailureView) -> Seq<FailureView> {
    if fs.len() >= MAX_FAILURES {
        fs.drop_first().push(f)
    } else {
        fs.push(f)
    }
}

proof fn lemma_live_after_push(base: Seq<FailureView>, f: FailureView, t: u64)
    ensures
        live_failures(base.push(f), t) == if f.2 > t {
            live_failures(base, t).push(f)
        } else {
            live_failures(base, t)
        },
{
    reveal_with_fuel(Seq::filter, 1);
    assert(base.push(f).drop_last() =~= base);
    assert(base.push(f).last() == f);
}

/// A failed lookup blocks the same directory and video for `FAILURE_TTL_MS`; once that
/// has passed it no longer blocks, unless another failure of it is still remembered.
pub proof fn lemma_failure_cooldown(
    fs: Seq<FailureView>,
    directory: Seq<char>,
    video_id: Seq<char>,
    now: u64,
    t: u64,
)
    requires
        now + FAILURE_TTL_MS <= u64::MAX,
    ensures
        now <= t < now + FAILURE_TTL_MS ==> has_failure(
            live_failures(
                failure_added(fs, (directory, video_id, (now + FAILURE_TTL_MS) as u64)),
                t,
            ),
            directory,
            video_id,
        ),
        t >= now + FAILURE_TTL_MS && !has_failure(live_failures(fs, t), directory, video_id)
            ==> !has_failure(
            live_failures(
                failure_added(fs, (directory, video_id, (now + FAILURE_TTL_MS) as u64)),
                t,
            ),
            directory,
            video_id,
        ),
{
    let f = (directory, video_id, (now + FAILURE_TTL_MS) as u64);
    let base = if fs.len() >= MAX_FAILURES {
        fs.drop_first()
    } else {
        fs
    };
    assert(failure_added(fs, f) == base.push(f));
    lemma_live_after_push(base, f, t);
    let live = live_failures(base.push(f), t);
    if now <= t < now + FAILURE_TTL_MS {
        assert(live[live.len() - 1] == f);
        assert(has_failure(live, directory, video_id));
    }
    if t >= now + FAILURE_TTL_MS && !has_failure(live_failures(fs, t), directory, video_id) {
        assert(live == live_failures(base, t));
        if fs.len() >= MAX_FAILURES {
            let pred = |x: FailureView| x.2 > t;
            assert(fs =~= seq![fs[0]] + fs.drop_first());
            Seq::filter_distributes_over_add(seq![fs[0]], fs.drop_first(), pred);
            let head = seq![fs[0]].filter(pred);
            assert(live_failures(fs, t) == head + live_failures(base, t));
            if has_failure(live, directory, video_id) {
                let k = choose|k: int|
                    0 <= k < live.len() && (#[trigger] live[k]).0 == directory && live[k].1
                        == video_id;
                assert(live_failures(fs, t)[head.len() + k] == live[k]);
            }
        }
    }
}

impl FailureMemory {
    /// The remembered failures, oldest first.
    pub closed spec fn failures(&self) -> Seq<FailureView> {
        self.failures@.map_values(|f: (String, String, u64)| failure_view(f))
    }

    /// The invariant: never more than `MAX_FAILURES`.
    pub closed spec fn wf(&self) -> bool {
        self.failures@.len() <= MAX_FAILURES
    }

    /// No failures.
    pub fn new() -> (res: FailureMemory)
        ensures
            res.wf(),
            res.failures().len() == 0,
    {
        FailureMemory { failures: VecDeque::new() }
    }

    /// How many failures are remembered.
    pub fn remembered(&self) -> (n: usize)
        ensures
            n == self.failures().len(),
    {
        self.failures.len()
    }

    /// Forgets the failures that expired at `now`, then says whether this directory and
    /// video failed recently.
    pub fn is_blocked(&mut self, directory: &str, video_id: &str, now: u64) -> (r: bool)
        requires
            old(self).wf(),
        ensures
            final(self).wf(),
            final(self).failures().len() <= MAX_FAILURES,
            final(self).failures() == live_failures(old(self).failures(), now),
            r == has_failure(final(self).failures(), directory@, video_id@),
    {
        let ghost fv = self.failures();
        let ghost pred = |f: FailureView| f.2 > now;
        let mut kept: VecDeque<(String, String, u64)> = VecDeque::new();
        let mut i: usize = 0;
        while i < self.failures.len()
            invariant
                i <= self.failures@.len(),
                self.failures@.len() <= MAX_FAILURES,
                fv == self.failures(),
                pred == (|f: FailureView| f.2 > now),
                kept@.map_values(|f: (String, String, u64)| failure_view(f)) == fv.take(i as int).filter(
                    pred,
                ),
                kept@.len() <= i,
            decreases self.failures@.len() - i,
        {
            assert(fv.take(i + 1).drop_last() =~= fv.take(i as int));
            assert(fv[i as int] == failure_view(self.failures@[i as int]));
            reveal_with_fuel(Seq::filter, 1);
            if self.failures[i].2 > now {
                let f = (self.failures[i].0.clone(), self.failures[i].1.clone(), self.failures[i].2);
                let ghost before = kept@.map_values(|f: (String, String, u64)| failure_view(f));
                kept.push_back(f);
                assert(kept@.map_values(|f: (String, String, u64)| failure_view(f)) =~= before.push(
                    fv[i as int],
                ));
            }
            i = i + 1;
        }
        assert(fv.take(fv.len() as int) =~= fv);
        self.failures = kept;
        let ghost now_fv = self.failures();
        assert(now_fv == live_failures(fv, now));
        let mut k: usize = 0;
        while k < self.failures.len()
            invariant
                k <= self.failures@.len(),
                self.failures@.len() <= MAX_FAILURES,
                now_fv == self.failures(),
                now_fv == live_failures(fv, now),
                fv == old(self).failures(),
                forall|q: int|
                    0 <= q < k ==> !((#[trigger] now_fv[q]).0 == directory@ && now_fv[q].1
                        == video_id@),
            decreases self.failures@.len() - k,
        {
            assert(now_fv[k as int] == failure_view(self.failures@[k as int]));
            if crate::text::str_equal(self.failures[k].0.as_str(), directory)
                && crate::text::str_equal(self.failures[k].1.as_str(), video_id) {
                return true;
            }
            k = k + 1;
        }
        false
    }

    /// Remembers a failure until `now` plus `FAILURE_TTL_MS` (saturating), dropping the
    /// oldest when the memory is full.
    pub fn record_failure(&mut self, directory: &str, video_id: &str, now: u64)
        requires
            old(self).wf(),
        ensures
            final(self).wf(),
            final(self).failures().len() <= MAX_FAILURES,
            final(self).failures() == failure_added(
                old(self).failures(),
                (
                    directory@,
                    video_id@,
                    if now + FAILURE_TTL_MS > u64::MAX {
                        u64::MAX
                    } else {
                        (now + FAILURE_TTL_MS) as u64
                    },
                ),
            ),
    {
        let ghost fv = self.failures();
        if self.failures.len() >= MAX_FAILURES {
            self.failures.pop_front();
            assert(self.failures() =~= fv.drop_first());
        }
        let ghost mid = self.failures();
        let f = (String::from_str(directory), String::from_str(video_id), now.saturating_add(FAILURE_TTL_MS));
        self.failures.push_back(f);
        assert(self.failures() =~= mid.push(failure_view(f)));
    }
}

/// How many artwork qualities there are (see `qualities`).
pub const QUALITY_COUNT: usize = 2;

/// Where the lookup of one video's artwork stands.
#[derive(Clone, Copy, Debug, PartialEq, Eq, Structural)]
pub enum ArtworkStage {
    /// Looking at the cached file of a quality (an index into `qualities`).
    CachedLookup(usize),
    /// Every cached quality missed: asking whether a recent failure blocks the video.
    Backoff,
    /// Downloading a quality, then storing it.
    Fetch(usize),
    /// The answer was given.
    Done,
}

/// What the application reports back after it performed an action.
#[derive(Debug)]
pub enum ArtworkEvent {
    /// The cache index row of the quality: whether there is one, and what is on disk for it
    /// (the file's size, `None` when no regular file is there, and its first bytes).
    CacheRow { present: bool, file_size: Option<u64>, head: Vec<u8> },
    /// The stale row and its file are gone.
    Dropped,
    /// Whether a recent failure blocks the video.
    Blocked(bool),
    /// What a download gave: the bytes read (at most `image_read_limit`), or `None` after
    /// an error or an unsuccessful or non-image response.
    Fetched(Option<Vec<u8>>),
    /// The file was written and indexed; whether the eviction that followed removed it.
    Stored { evicted_itself: bool },
}

/// What the application does next.
#[derive(Debug, PartialEq, Eq)]
pub enum ArtworkAction {
    /// Read the cache index row of a quality (touching its access time) and look at its file.
    ReadCacheRow(usize),
    /// Remove the file and the index row of a quality whose file is missing or invalid.
    DropStale(usize),
    /// Ask the failure memory whether the video is blocked.
    CheckBackoff,
    /// Download a quality.
    Fetch(usize),
    /// Write these bytes as the quality's file, index it and evict beyond the cache limit.
    Store(usize, Vec<u8>),
    /// Answer with the cached file of a quality, or with nothing.
    Return(Option<usize>),
    /// Remember the failure, then answer with nothing.
    RecordFailure,
}

/// A cached file may be served when it is a regular file within the size limit whose first
/// bytes are an image signature.
pub open spec fn valid_cached_file(file_size: Option<u64>, head: Seq<u8>) -> bool {
    file_size matches Some(n) && n <= ARTWORK_MAX_BYTES && image_signature(head)
}

/// A download that gave no acceptable image.
pub open spec fn fetch_failed(event: ArtworkEvent) -> bool {
    event matches ArtworkEvent::Fetched(r) && !(r matches Some(b) && accepted_image(b@))
}

/// After a cached quality missed: the next quality, or the failure check after the last.
pub open spec fn after_lookup(q: usize) -> (ArtworkStage, ArtworkAction) {
    if q + 1 < QUALITY_COUNT {
        (ArtworkStage::CachedLookup((q + 1) as usize), ArtworkAction::ReadCacheRow((q + 1) as usize))
    } else {
        (ArtworkStage::Backoff, ArtworkAction::CheckBackoff)
    }
}

/// After a download failed: the next quality, or a recorded failure after the last.
pub open spec fn after_failed_fetch(q: usize) -> (ArtworkStage, ArtworkAction) {
    if q + 1 < QUALITY_COUNT {
        (ArtworkStage::Fetch((q + 1) as usize), ArtworkAction::Fetch((q + 1) as usize))
    } else {
        (ArtworkStage::Done, ArtworkAction::RecordFailure)
    }
}

/// The lookup starts with the cached file of the best quality.
pub open spec fn artwork_first() -> (ArtworkStage, ArtworkAction) {
    (ArtworkStage::CachedLookup(0), ArtworkAction::ReadCacheRow(0))
}

/// One step of an artwork lookup. Every cached quality is looked at before the failure
/// memory and before any download; a valid cached file is served at once and a stale one
/// is dropped. Unless a recent failure blocks the video, the qualities are downloaded best
/// first, the next one whenever a download gives no acceptable image; an image is stored
/// and served unless its own eviction removed it. A failure is remembered only when every
/// quality failed. An event that does not answer the pending action ends the lookup with
/// nothing.
pub open spec fn artwork_next(stage: ArtworkStage, event: ArtworkEvent) -> (ArtworkStage, ArtworkAction) {
    match stage {
        ArtworkStage::CachedLookup(q) => match event {
            ArtworkEvent::CacheRow { present, file_size, head } => if present && valid_cached_file(
                file_size,
                head@,
            ) {
                (ArtworkStage::Done, ArtworkAction::Return(Some(q)))
            } else if present {
                (ArtworkStage::CachedLookup(q), ArtworkAction::DropStale(q))
            } else {
                after_lookup(q)
            },
            ArtworkEvent::Dropped => after_lookup(q),
            _ => (ArtworkStage::Done, ArtworkAction::Return(None)),
        },
        ArtworkStage::Backoff => match event {
            ArtworkEvent::Blocked(blocked) => if blocked {
                (ArtworkStage::Done, ArtworkAction::Return(None))
            } else {
                (ArtworkStage::Fetch(0), ArtworkAction::Fetch(0))
            },
            _ => (ArtworkStage::Done, ArtworkAction::Return(None)),
        },
        ArtworkStage::Fetch(q) => match event {
            ArtworkEvent::Fetched(r) => match r {
                Some(bytes) => if accepted_image(bytes@) {
                    (ArtworkStage::Fetch(q), ArtworkAction::Store(q, bytes))
                } else {
                    after_failed_fetch(q)
                },
                None => after_failed_fetch(q),
            },
            ArtworkEvent::Stored { evicted_itself } => (
                ArtworkStage::Done,
                ArtworkAction::Return(
                    if evicted_itself {
                        None
                    } else {
                        Some(q)
                    },
                ),
            ),
            _ => (ArtworkStage::Done, ArtworkAction::Return(None)),
        },
        ArtworkStage::Done => (ArtworkStage::Done, ArtworkAction::Return(None)),
    }
}

/// The first stage and action of an artwork lookup (see `artwork_first`).
pub fn artwork_begin() -> (res: (ArtworkStage, ArtworkAction))
    ensures
        res == artwork_first(),
{
    (ArtworkStage::CachedLookup(0), ArtworkAction::ReadCacheRow(0))
}

fn next_lookup(q: usize) -> (res: (ArtworkStage, ArtworkAction))
    ensures
        res == after_lookup(q),
{
    if q < QUALITY_COUNT - 1 {
        (ArtworkStage::CachedLookup(q + 1), ArtworkAction::ReadCacheRow(q + 1))
    } else {
        (ArtworkStage::Backoff, ArtworkAction::CheckBackoff)
    }
}

fn next_fetch(q: usize) -> (res: (ArtworkStage, ArtworkAction))
    ensures
        res == after_failed_fetch(q),
{
    if q < QUALITY_COUNT - 1 {
        (ArtworkStage::Fetch(q + 1), ArtworkAction::Fetch(q + 1))
    } else {
        (ArtworkStage::Done, ArtworkAction::RecordFailure)
    }
}

/// The next stage and action of an artwork lookup, given what the last action gave (see
/// `artwork_next`).
pub fn artwork_step(stage: ArtworkStage, event: ArtworkEvent) -> (res: (ArtworkStage, ArtworkAction))
    ensures
        res == artwork_next(stage, event),
{
    match stage {
        ArtworkStage::CachedLookup(q) => match event {
            ArtworkEvent::CacheRow { present, file_size, head } => {
                let valid = match file_size {
                    Some(n) => n <= ARTWORK_MAX_BYTES && is_image_signature(head.as_slice()),
                    None => false,
                };
                if present && valid {
                    (ArtworkStage::Done, ArtworkAction::Return(Some(q)))
                } else if present {
                    (ArtworkStage::CachedLookup(q), ArtworkAction::DropStale(q))
                } else {
                    next_lookup(q)
                }
            },
            ArtworkEvent::Dropped => next_lookup(q),
            _ => (ArtworkStage::Done, ArtworkAction::Return(None)),
        },
        ArtworkStage::Backoff => match event {
            ArtworkEvent::Blocked(blocked) => if blocked {
                (ArtworkStage::Done, ArtworkAction::Return(None))
            } else {
                (ArtworkStage::Fetch(0), ArtworkAction::Fetch(0))
            },
            _ => (ArtworkStage::Done, ArtworkAction::Return(None)),
        },
        ArtworkStage::Fetch(q) => match event {
            ArtworkEvent::Fetched(r) => match r {
                Some(bytes) => if bytes.len() as u64 <= ARTWORK_MAX_BYTES && is_image_signature(
                    bytes.as_slice(),
                ) {
                    (ArtworkStage::Fetch(q), ArtworkAction::Store(q, bytes))
                } else {
                    next_fetch(q)
                },
                None => next_fetch(q),
            },
            ArtworkEvent::Stored { evicted_itself } => (
                ArtworkStage::Done,
                ArtworkAction::Return(
                    if evicted_itself {
                        None
                    } else {
                        Some(q)
                    },
                ),
            ),
            _ => (ArtworkStage::Done, ArtworkAction::Return(None)),
        },
        ArtworkStage::Done => (ArtworkStage::Done, ArtworkAction::Return(None)),
    }
}

/// A valid cached file of a quality is served at once, without a download.
pub proof fn lemma_valid_cache_is_served(q: usize, file_size: u64, head: Vec<u8>)
    requires
        file_size <= ARTWORK_MAX_BYTES,
        image_signature(head@),
    ensures
        artwork_next(
            ArtworkStage::CachedLookup(q),
            ArtworkEvent::CacheRow { present: true, file_size: Some(file_size), head },
        ) == (ArtworkStage::Done, ArtworkAction::Return(Some(q))),
{
}

/// The failure memory never hides a local file: it is asked only once the last cached
/// quality was found missing or stale (the lookup goes through the qualities in order
/// from `artwork_first`).
pub proof fn lemma_backoff_after_every_cached_quality(stage: ArtworkStage, event: ArtworkEvent)
    ensures
        artwork_next(stage, event).1 == ArtworkAction::CheckBackoff ==> (stage matches ArtworkStage::CachedLookup(
            q,
        ) && q + 1 >= QUALITY_COUNT) && (event is Dropped
            || event matches ArtworkEvent::CacheRow { present: false, .. }),
{
}

/// No download before the failure memory was asked: the best quality is fetched only after
/// a check that did not block, and the next only after the best one failed.
pub proof fn lemma_fetch_order(stage: ArtworkStage, event: ArtworkEvent)
    ensures
        artwork_next(stage, event).1 matches ArtworkAction::Fetch(q) ==> (q == 0 && stage
            == ArtworkStage::Backoff && event == ArtworkEvent::Blocked(false)) || (q == 1 && stage
            == ArtworkStage::Fetch(0) && fetch_failed(event)),
{
}

/// A failed best-quality download, of any kind, still tries the next quality.
pub proof fn lemma_fetch_falls_back(event: ArtworkEvent)
    requires
        fetch_failed(event),
    ensures
        artwork_next(ArtworkStage::Fetch(0), event) == (ArtworkStage::Fetch(1), ArtworkAction::Fetch(1)),
{
}

/// A failure is remembered only when the last quality failed too.
pub proof fn lemma_failure_after_every_fetch(stage: ArtworkStage, event: ArtworkEvent)
    ensures
        artwork_next(stage, event).1 == ArtworkAction::RecordFailure ==> (stage matches ArtworkStage::Fetch(
            q,
        ) && q + 1 >= QUALITY_COUNT) && fetch_failed(event),
{
}

/// Only an acceptable image is stored, and it is served unless its eviction removed it.
pub proof fn lemma_store_and_serve(stage: ArtworkStage, event: ArtworkEvent, evicted_itself: bool, q: usize)
    ensures
        artwork_next(stage, event).1 matches ArtworkAction::Store(_, bytes) ==> accepted_image(
            bytes@,
        ),
        artwork_next(ArtworkStage::Fetch(q), ArtworkEvent::Stored { evicted_itself }) == (
            ArtworkStage::Done,
            ArtworkAction::Return(
                if evicted_itself {
                    None
                } else {
                    Some(q)
                },
            ),
        ),
{
}

/// A failed lookup blocks downloads of the same video for `FAILURE_TTL_MS`: a lookup that
/// finds no cached file then ends with nothing and no download. Once that time has passed,
/// and no other failure of the video is remembered, the lookup downloads the best quality
/// again, and the next quality when that download fails. (A failure is remembered only
/// after every quality failed: `lemma_failure_after_every_fetch`.)
pub proof fn lemma_failed_lookup_blocks_then_retries(
    fs: Seq<FailureView>,
    directory: Seq<char>,
    video_id: Seq<char>,
    failed_at: u64,
    now: u64,
    first_fetch: ArtworkEvent,
)
    requires
        failed_at + FAILURE_TTL_MS <= u64::MAX,
    ensures
        ({
            let remembered = failure_added(
                fs,
                (directory, video_id, (failed_at + FAILURE_TTL_MS) as u64),
            );
            let blocked = has_failure(live_failures(remembered, now), directory, video_id);
            &&& failed_at <= now < failed_at + FAILURE_TTL_MS ==> artwork_next(
                ArtworkStage::Backoff,
                ArtworkEvent::Blocked(blocked),
            ) == (ArtworkStage::Done, ArtworkAction::Return(None))
            &&& now >= failed_at + FAILURE_TTL_MS && !has_failure(
                live_failures(fs, now),
                directory,
                video_id,
            ) ==> artwork_next(ArtworkStage::Backoff, ArtworkEvent::Blocked(blocked)) == (
                ArtworkStage::Fetch(0),
                ArtworkAction::Fetch(0),
            )
            &&& fetch_failed(first_fetch) ==> artwork_next(ArtworkStage::Fetch(0), first_fetch) == (
                ArtworkStage::Fetch(1),
                ArtworkAction::Fetch(1),
            )
        }),
{
    lemma_failure_cooldown(fs, directory, video_id, failed_at, now);
}

} // verus!
