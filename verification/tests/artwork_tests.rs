use gmusic::artwork::{
    accept_image, accepts_response, artwork_begin, artwork_step, artwork_url_of, cache_key_of,
    image_read_limit, is_image_signature, is_youtube_video_id, qualities, relative_path_of,
    select_evictions, ArtworkAction, ArtworkEvent, ArtworkStage, CachedArtwork, FailureMemory,
    ARTWORK_MAX_BYTES, FAILURE_TTL_MS, MAX_FAILURES,
};
use std::io::Read;

/// A download as the application reads it: at most `image_read_limit` bytes, kept only
/// when they are an acceptable image.
fn read_image(reader: impl Read) -> std::io::Result<Option<Vec<u8>>> {
    let mut bytes = Vec::new();
    reader.take(image_read_limit()).read_to_end(&mut bytes)?;
    Ok(accept_image(bytes))
}

fn missing_row() -> ArtworkEvent {
    ArtworkEvent::CacheRow { present: false, file_size: None, head: Vec::new() }
}

fn valid_row() -> ArtworkEvent {
    ArtworkEvent::CacheRow { present: true, file_size: Some(JPEG.len() as u64), head: JPEG.to_vec() }
}

/// Runs a lookup, answering each action from the given events; returns the actions taken.
fn run(events: Vec<ArtworkEvent>) -> Vec<ArtworkAction> {
    let (mut stage, action) = artwork_begin();
    let mut actions = vec![action];
    for event in events {
        let (next, action) = artwork_step(stage, event);
        stage = next;
        actions.push(action);
    }
    actions
}

const JPEG: &[u8] = &[0xff, 0xd8, 0xff, 0xe0];

#[test]
fn accepts_only_stable_youtube_video_ids() {
    assert!(is_youtube_video_id("M7lc1UVf-VE"));
    assert!(!is_youtube_video_id("../bad"));
}

#[test]
fn validates_supported_image_signatures() {
    assert!(is_image_signature(&[0xff, 0xd8, 0xff, 0xe0]));
    assert!(is_image_signature(b"\x89PNG\r\n\x1a\nimage"));
    assert!(!is_image_signature(b"not an image"));
}

#[test]
fn bounded_reader_stops_at_limit_plus_one() {
    assert_eq!(image_read_limit(), ARTWORK_MAX_BYTES + 1);
    let mut reader = std::io::repeat(0xff).take(ARTWORK_MAX_BYTES * 2);
    assert_eq!(read_image(&mut reader).unwrap(), None);
    assert_eq!(reader.limit(), ARTWORK_MAX_BYTES - 1);
    assert_eq!(read_image(JPEG).unwrap(), Some(JPEG.to_vec()));
    assert_eq!(read_image(&b"invalid"[..]).unwrap(), None);
    assert_eq!(read_image(&b""[..]).unwrap(), None);
    let mut exact = vec![0; ARTWORK_MAX_BYTES as usize];
    exact[..JPEG.len()].copy_from_slice(JPEG);
    assert_eq!(
        read_image(exact.as_slice()).unwrap().unwrap().len(),
        ARTWORK_MAX_BYTES as usize
    );
}

#[test]
fn disk_eviction_uses_last_access_order() {
    let rows = vec![
        CachedArtwork { cache_key: "a".into(), relative_path: "artwork/a.jpg".into(), byte_size: 10 },
        CachedArtwork { cache_key: "b".into(), relative_path: "artwork/b.jpg".into(), byte_size: 10 },
        CachedArtwork { cache_key: "c".into(), relative_path: "artwork/c.jpg".into(), byte_size: 10 },
    ];
    assert_eq!(select_evictions(30, &rows, 15), ["artwork/a.jpg", "artwork/b.jpg"]);
    assert!(select_evictions(30, &rows, 30).is_empty());
    assert_eq!(select_evictions(30, &rows, 0).len(), 3);
}

/// Looks up one video with no cached files: the failure memory answers the backoff check,
/// every download gives `download`, and every store keeps its file.
fn lookup(memory: &mut FailureMemory, video_id: &str, now: u64, download: Option<Vec<u8>>) -> Option<usize> {
    let (mut stage, mut action) = artwork_begin();
    loop {
        let event = match action {
            ArtworkAction::ReadCacheRow(_) => missing_row(),
            ArtworkAction::DropStale(_) => ArtworkEvent::Dropped,
            ArtworkAction::CheckBackoff => ArtworkEvent::Blocked(memory.is_blocked("/data", video_id, now)),
            ArtworkAction::Fetch(_) => ArtworkEvent::Fetched(download.clone()),
            ArtworkAction::Store(_, _) => ArtworkEvent::Stored { evicted_itself: false },
            ArtworkAction::RecordFailure => {
                memory.record_failure("/data", video_id, now);
                return None;
            }
            ArtworkAction::Return(answer) => return answer,
        };
        let (next, next_action) = artwork_step(stage, event);
        stage = next;
        action = next_action;
    }
}

#[test]
fn failure_memory_is_bounded_and_fetch_errors_can_recover() {
    let mut memory = FailureMemory::new();
    for i in 0..=MAX_FAILURES {
        assert_eq!(lookup(&mut memory, &format!("{i:011}"), 0, None), None);
    }
    assert_eq!(memory.remembered(), MAX_FAILURES);
    let last = format!("{MAX_FAILURES:011}");
    assert_eq!(lookup(&mut memory, &last, 0, Some(JPEG.to_vec())), None);
    assert!(lookup(&mut memory, &last, FAILURE_TTL_MS, Some(JPEG.to_vec())).is_some());
    assert_eq!(memory.remembered(), 0);
}

#[test]
fn disk_eviction_uses_last_access_and_removes_the_file() {
    // The index lists rows by last access: the other video (accessed at 2) comes before the
    // served one (touched at 3) and the file just stored (at 3).
    let rows = vec![
        CachedArtwork {
            cache_key: "youtube:BaW_jenozKc:maxresdefault".into(),
            relative_path: "artwork/BaW_jenozKc-maxresdefault.jpg".into(),
            byte_size: 4,
        },
        CachedArtwork {
            cache_key: "youtube:M7lc1UVf-VE:maxresdefault".into(),
            relative_path: "artwork/M7lc1UVf-VE-maxresdefault.jpg".into(),
            byte_size: 4,
        },
        CachedArtwork {
            cache_key: "youtube:00000000000:maxresdefault".into(),
            relative_path: "artwork/00000000000-maxresdefault.jpg".into(),
            byte_size: 4,
        },
    ];
    assert_eq!(select_evictions(12, &rows, 8), ["artwork/BaW_jenozKc-maxresdefault.jpg"]);
}

#[test]
fn failure_memory_is_bounded_and_expires() {
    let mut memory = FailureMemory::new();
    memory.record_failure("/data", "M7lc1UVf-VE", 100);
    assert!(memory.is_blocked("/data", "M7lc1UVf-VE", 100 + FAILURE_TTL_MS - 1));
    assert!(!memory.is_blocked("/other", "M7lc1UVf-VE", 100));
    assert!(!memory.is_blocked("/data", "M7lc1UVf-VE", 100 + FAILURE_TTL_MS));
    for i in 0..(MAX_FAILURES + 1) {
        memory.record_failure("/data", &format!("id-{i}"), 1_000);
    }
    assert!(!memory.is_blocked("/data", "id-0", 1_000));
    assert!(memory.is_blocked("/data", "id-1", 1_000));
    assert!(memory.is_blocked("/data", &format!("id-{MAX_FAILURES}"), 1_000));
}

#[test]
fn artwork_locations_and_downloads_follow_the_cache_layout() {
    assert_eq!(
        artwork_url_of("M7lc1UVf-VE", "hqdefault"),
        "https://i.ytimg.com/vi/M7lc1UVf-VE/hqdefault.jpg"
    );
    assert_eq!(cache_key_of("M7lc1UVf-VE", "hqdefault"), "youtube:M7lc1UVf-VE:hqdefault");
    assert_eq!(relative_path_of("M7lc1UVf-VE", "maxresdefault"), "artwork/M7lc1UVf-VE-maxresdefault.jpg");
    assert_eq!(qualities(), ["maxresdefault", "hqdefault"]);
    assert!(accepts_response(true, Some(100), "image/jpeg"));
    assert!(!accepts_response(true, Some(ARTWORK_MAX_BYTES + 1), "image/jpeg"));
    assert!(!accepts_response(true, None, "text/html"));
    assert!(!accepts_response(false, None, "image/png"));
    assert_eq!(accept_image(b"RIFF\0\0\0\0WEBPVP8 ".to_vec()).is_some(), true);
    assert_eq!(accept_image(b"RIFF\0\0\0\0WAVE".to_vec()), None);
}

#[test]
fn local_hq_wins_before_any_network_even_with_a_fresh_resolver() {
    let actions = run(vec![missing_row(), valid_row()]);
    assert_eq!(
        actions,
        vec![ArtworkAction::ReadCacheRow(0), ArtworkAction::ReadCacheRow(1), ArtworkAction::Return(Some(1))]
    );
}

#[test]
fn fetch_error_uses_hq_fallback() {
    let actions = run(vec![
        missing_row(),
        missing_row(),
        ArtworkEvent::Blocked(false),
        ArtworkEvent::Fetched(None),
        ArtworkEvent::Fetched(Some(JPEG.to_vec())),
        ArtworkEvent::Stored { evicted_itself: false },
    ]);
    assert_eq!(
        actions,
        vec![
            ArtworkAction::ReadCacheRow(0),
            ArtworkAction::ReadCacheRow(1),
            ArtworkAction::CheckBackoff,
            ArtworkAction::Fetch(0),
            ArtworkAction::Fetch(1),
            ArtworkAction::Store(1, JPEG.to_vec()),
            ArtworkAction::Return(Some(1)),
        ]
    );
}

#[test]
fn failure_cooldown_expires_and_never_hides_local_files() {
    let mut memory = FailureMemory::new();
    memory.record_failure("/data", "M7lc1UVf-VE", 0);
    // A valid cached file is served before the failure memory is asked.
    assert_eq!(run(vec![valid_row()]), vec![ArtworkAction::ReadCacheRow(0), ArtworkAction::Return(Some(0))]);
    // Without cached files, a recent failure answers with nothing and no download.
    let blocked = memory.is_blocked("/data", "M7lc1UVf-VE", FAILURE_TTL_MS - 1);
    assert!(blocked);
    assert_eq!(
        run(vec![missing_row(), missing_row(), ArtworkEvent::Blocked(blocked)]).last(),
        Some(&ArtworkAction::Return(None))
    );
    // Once the cooldown has passed, the download is tried again.
    let blocked = memory.is_blocked("/data", "M7lc1UVf-VE", FAILURE_TTL_MS);
    assert!(!blocked);
    assert_eq!(
        run(vec![missing_row(), missing_row(), ArtworkEvent::Blocked(blocked)]).last(),
        Some(&ArtworkAction::Fetch(0))
    );
}

#[test]
fn stale_missing_and_oversized_files_are_replaced() {
    let stale = ArtworkEvent::CacheRow { present: true, file_size: None, head: Vec::new() };
    let oversized = ArtworkEvent::CacheRow {
        present: true,
        file_size: Some(ARTWORK_MAX_BYTES + 1),
        head: JPEG.to_vec(),
    };
    let invalid = ArtworkEvent::CacheRow { present: true, file_size: Some(7), head: b"invalid".to_vec() };
    for row in [stale, oversized, invalid] {
        assert_eq!(
            run(vec![row, ArtworkEvent::Dropped]),
            vec![ArtworkAction::ReadCacheRow(0), ArtworkAction::DropStale(0), ArtworkAction::ReadCacheRow(1)]
        );
    }
}

#[test]
fn failures_are_recorded_only_after_every_quality() {
    let mut too_big = vec![0; ARTWORK_MAX_BYTES as usize + 1];
    too_big[..JPEG.len()].copy_from_slice(JPEG);
    let actions = run(vec![
        missing_row(),
        missing_row(),
        ArtworkEvent::Blocked(false),
        ArtworkEvent::Fetched(Some(too_big)),
        ArtworkEvent::Fetched(Some(b"invalid".to_vec())),
    ]);
    assert_eq!(actions[3..], [ArtworkAction::Fetch(0), ArtworkAction::Fetch(1), ArtworkAction::RecordFailure]);
}

#[test]
fn an_image_evicted_by_its_own_store_is_not_served() {
    let (stage, _) = artwork_step(ArtworkStage::Fetch(0), ArtworkEvent::Fetched(Some(JPEG.to_vec())));
    assert_eq!(stage, ArtworkStage::Fetch(0));
    assert_eq!(
        artwork_step(stage, ArtworkEvent::Stored { evicted_itself: true }),
        (ArtworkStage::Done, ArtworkAction::Return(None))
    );
}
