use gmusic::metadata::{idle_decision, IdleDecision, METADATA_IDLE_TIMEOUT_MS};
use gmusic::metadata::{
    discovery_metadata_arguments, finish_metadata_resolution, member_only_error_count,
    member_only_video_ids, merge_queue_entries, metadata_arguments, metadata_error_message,
    mpv_arguments, parse_import_metadata, parse_import_metadata_with_dirty_state,
    parse_streamed_metadata, validate_youtube_url, YtDlpMetadata,
};
use std::collections::HashSet;

fn record(id: &str) -> YtDlpMetadata {
    YtDlpMetadata {
        id: Some(id.to_string()),
        title: None,
        track: None,
        artist: None,
        album: None,
        album_artist: None,
        track_number: None,
        disc_number: None,
        release_date: None,
        upload_date: None,
        description: None,
        channel: None,
        channel_id: None,
        uploader: None,
        uploader_id: None,
        thumbnail: None,
        categories: None,
        tags: None,
        language: None,
        availability: None,
        is_live: None,
        view_count: None,
        like_count: None,
        duration_ms: None,
        webpage_url: None,
        entries: None,
    }
}

fn video(id: &str, title: &str, channel: &str, duration_ms: u64) -> YtDlpMetadata {
    let mut r = record(id);
    r.title = Some(title.to_string());
    r.channel = Some(channel.to_string());
    r.duration_ms = Some(duration_ms);
    r
}

fn collection(id: &str, title: &str, entries: Vec<Option<YtDlpMetadata>>) -> YtDlpMetadata {
    let mut r = record(id);
    r.title = Some(title.to_string());
    r.entries = Some(entries);
    r
}

#[test]
fn accepts_supported_youtube_urls() {
    for url in [
        "https://www.youtube.com/watch?v=M7lc1UVf-VE",
        "https://music.youtube.com/watch?v=M7lc1UVf-VE",
        "https://youtu.be/M7lc1UVf-VE",
    ] {
        assert!(validate_youtube_url(url).is_ok(), "rejected {url}");
    }
}

#[test]
fn rejects_non_youtube_urls() {
    let error = validate_youtube_url("https://example.com/watch?v=M7lc1UVf-VE")
        .expect_err("non-YouTube hosts must be rejected");

    assert_eq!(error.message(), "only YouTube URLs are supported");
}

#[test]
fn parses_rich_yt_dlp_metadata_into_an_imported_track() {
    let mut m = record("M7lc1UVf-VE");
    m.title = Some("Video title".into());
    m.track = Some("YouTube Developers Live".into());
    m.artist = Some("Google for Developers".into());
    m.album = Some("API Sessions".into());
    m.album_artist = Some("Google".into());
    m.track_number = Some(3);
    m.disc_number = Some(1);
    m.release_date = Some("20250102".into());
    m.upload_date = Some("20250103".into());
    m.description = Some("A complete metadata fixture.".into());
    m.channel = Some("Google Developers".into());
    m.channel_id = Some("UC_x5XG1OV2P6uZZ5FSM9Ttw".into());
    m.uploader = Some("Google for Developers".into());
    m.uploader_id = Some("GoogleDevelopers".into());
    m.thumbnail = Some("https://i.ytimg.com/vi/M7lc1UVf-VE/maxresdefault.jpg".into());
    m.categories = Some(vec!["Science & Technology".into(), "Music".into()]);
    m.tags = Some(vec!["API".into(), "Developers".into()]);
    m.language = Some("en".into());
    m.availability = Some("public".into());
    m.is_live = Some(false);
    m.view_count = Some(42);
    m.like_count = Some(7);
    m.duration_ms = Some(238_250);
    m.webpage_url = Some("https://www.youtube.com/watch?v=M7lc1UVf-VE".into());
    let tracks = parse_import_metadata(m).expect("fixture metadata is valid");
    let track = tracks.first().expect("one track is imported");

    assert_eq!(tracks.len(), 1);
    assert_eq!(track.item.id, "M7lc1UVf-VE");
    assert_eq!(track.item.title, "YouTube Developers Live");
    assert_eq!(track.item.artist, "Google for Developers");
    assert_eq!(track.item.album.as_deref(), Some("API Sessions"));
    assert_eq!(track.item.album_artist.as_deref(), Some("Google"));
    assert_eq!(track.item.track_number, Some(3));
    assert_eq!(track.item.disc_number, Some(1));
    assert_eq!(track.item.release_date.as_deref(), Some("2025-01-02"));
    assert_eq!(track.item.upload_date.as_deref(), Some("2025-01-03"));
    assert_eq!(
        track.item.description.as_deref(),
        Some("A complete metadata fixture.")
    );
    assert_eq!(track.item.channel.as_deref(), Some("Google Developers"));
    assert_eq!(
        track.item.channel_id.as_deref(),
        Some("UC_x5XG1OV2P6uZZ5FSM9Ttw")
    );
    assert_eq!(
        track.item.uploader.as_deref(),
        Some("Google for Developers")
    );
    assert_eq!(track.item.uploader_id.as_deref(), Some("GoogleDevelopers"));
    assert_eq!(
        track.item.thumbnail_url.as_deref(),
        Some("https://i.ytimg.com/vi/M7lc1UVf-VE/maxresdefault.jpg")
    );
    assert_eq!(track.item.categories, ["Science & Technology", "Music"]);
    assert_eq!(track.item.tags, ["API", "Developers"]);
    assert_eq!(track.item.language.as_deref(), Some("en"));
    assert_eq!(track.item.availability.as_deref(), Some("public"));
    assert!(!track.item.is_live);
    assert_eq!(track.item.view_count, Some(42));
    assert_eq!(track.item.like_count, Some(7));
    assert_eq!(track.item.duration_ms, 238_250);
    assert_eq!(
        track.source_url,
        "https://www.youtube.com/watch?v=M7lc1UVf-VE"
    );
}

#[test]
fn keeps_flat_discovery_tracks_dirty_until_enrichment_replaces_them() {
    let mut flat = record("M7lc1UVf-VE");
    flat.title = Some("Fast discovery title".into());
    flat.channel = Some("Channel".into());
    let mut entries =
        parse_import_metadata_with_dirty_state(flat, true).expect("flat discovery fixture is valid");
    let mut full = record("M7lc1UVf-VE");
    full.track = Some("Full metadata title".into());
    full.artist = Some("Artist".into());
    full.album = Some("Album".into());
    full.duration_ms = Some(120_000);
    let enriched =
        parse_import_metadata_with_dirty_state(full, false).expect("full metadata fixture is valid");

    assert!(entries[0].item.metadata_dirty);
    merge_queue_entries(&mut entries, enriched);

    assert_eq!(entries.len(), 1);
    assert_eq!(entries[0].item.title, "Full metadata title");
    assert!(!entries[0].item.metadata_dirty);
}

#[test]
fn expands_playlist_metadata_and_skips_unavailable_entries() {
    let mut first = video("M7lc1UVf-VE", "First video", "First channel", 120_000);
    first.webpage_url = Some("https://www.youtube.com/watch?v=M7lc1UVf-VE".into());
    let mut second = record("BaW_jenozKc");
    second.title = Some("Second video".into());
    second.uploader = Some("Second uploader".into());
    second.duration_ms = Some(90_500);
    let tracks = parse_import_metadata(collection(
        "PL-example",
        "Imported playlist",
        vec![Some(first), None, Some(second)],
    ))
    .expect("playlist fixture is valid");

    assert_eq!(tracks.len(), 2);
    assert_eq!(tracks[0].item.title, "First video");
    assert_eq!(tracks[0].item.artist, "First channel");
    assert_eq!(tracks[1].item.title, "Second video");
    assert_eq!(tracks[1].item.artist, "Second uploader");
    assert_eq!(tracks[1].item.duration_ms, 90_500);
    assert_eq!(
        tracks[1].source_url,
        "https://www.youtube.com/watch?v=BaW_jenozKc"
    );
}

#[test]
fn expands_nested_artist_metadata_into_tracks() {
    let videos = collection(
        "videos",
        "Videos",
        vec![
            Some(video("M7lc1UVf-VE", "First video", "Artist", 120_000)),
            Some(video("BaW_jenozKc", "Second video", "Artist", 90_500)),
        ],
    );
    let tracks = parse_import_metadata(collection("UC-artist", "Artist", vec![Some(videos)]))
        .expect("artist fixture is valid");

    assert_eq!(tracks.len(), 2);
    assert_eq!(tracks[0].item.title, "First video");
    assert_eq!(tracks[1].item.title, "Second video");
}

#[test]
fn asks_yt_dlp_for_video_or_playlist_metadata_without_downloading() {
    let arguments = metadata_arguments("https://youtube.com/playlist?list=PL-example", None);

    assert!(arguments.contains(&"--dump-json".into()));
    assert!(!arguments.contains(&"--dump-single-json".into()));
    assert!(arguments.contains(&"--yes-playlist".into()));
    assert!(arguments.contains(&"--ignore-errors".into()));
    assert!(arguments.contains(&"--lazy-playlist".into()));
    assert!(arguments.contains(&"--retries".into()));
    assert!(arguments.contains(&"--extractor-retries".into()));
    assert!(arguments.contains(&"--skip-download".into()));
    assert!(!arguments.contains(&"--no-playlist".into()));
}

#[test]
fn asks_yt_dlp_to_discover_collection_entries_without_per_video_resolution() {
    let arguments = discovery_metadata_arguments("https://youtube.com/@channel/videos", None);

    assert!(arguments.contains(&"--dump-json".into()));
    assert!(arguments.contains(&"--flat-playlist".into()));
    assert!(arguments.contains(&"--yes-playlist".into()));
    assert!(arguments.contains(&"--skip-download".into()));
    assert!(!arguments.contains(&"--extractor-retries".into()));
}

#[test]
fn parses_playable_tracks_from_streamed_yt_dlp_metadata() {
    let tracks = parse_streamed_metadata(vec![
        video("M7lc1UVf-VE", "First", "Channel", 120_000),
        video("BaW_jenozKc", "Second", "Channel", 90_000),
    ])
    .expect("streamed metadata is valid");

    assert_eq!(tracks.len(), 2);
    assert_eq!(tracks[0].item.title, "First");
    assert_eq!(tracks[1].item.title, "Second");
}

#[test]
fn reports_member_only_entries_without_dumping_provider_errors() {
    let stderr = "ERROR: [youtube] first: This video is available to this channel's members on level: Supporters\n\
ERROR: [youtube] second: This video is available to this channel's members on level: Supporters\n";

    assert_eq!(member_only_error_count(stderr), 2);
    assert_eq!(
        metadata_error_message(stderr, 0),
        "no playable tracks found; skipped 2 members-only tracks"
    );
}

#[test]
fn identifies_member_only_video_ids_for_removal_after_enrichment() {
    let stderr = "ERROR: [youtube] M7lc1UVf-VE: This video is available to this channel's members on level: Supporters\n\
ERROR: [youtube] BaW_jenozKc: This video is available to this channel's members on level: Supporters\n";

    assert_eq!(
        member_only_video_ids(stderr).into_iter().collect::<HashSet<String>>(),
        ["M7lc1UVf-VE".to_string(), "BaW_jenozKc".to_string()]
            .into_iter()
            .collect()
    );
}

#[test]
fn keeps_streamed_tracks_when_metadata_stops_after_inactivity() {
    let entries = parse_import_metadata(video(
        "M7lc1UVf-VE",
        "Imported before timeout",
        "Channel",
        120_000,
    ))
    .expect("fixture metadata is valid");

    let resolution = finish_metadata_resolution(entries, "", true)
        .expect("playable metadata should survive an inactivity timeout");

    assert_eq!(resolution.entries.len(), 1);
    assert!(resolution.timed_out);
}

#[test]
fn repeated_imports_update_metadata_without_duplicate_queue_entries() {
    let mut entries = parse_import_metadata(video("M7lc1UVf-VE", "Old title", "Channel", 120_000))
        .expect("initial fixture is valid");
    let imported = parse_import_metadata(collection(
        "PL-example",
        "Playlist",
        vec![
            Some(video("M7lc1UVf-VE", "Updated title", "Channel", 121_000)),
            Some(video("BaW_jenozKc", "New track", "Channel", 90_000)),
        ],
    ))
    .expect("updated fixture is valid");

    merge_queue_entries(&mut entries, imported);

    assert_eq!(entries.len(), 2);
    assert_eq!(entries[0].item.id, "M7lc1UVf-VE");
    assert_eq!(entries[0].item.title, "Updated title");
    assert_eq!(entries[1].item.id, "BaW_jenozKc");
}

#[test]
fn passes_the_dedicated_cookie_file_to_youtube_tools() {
    let cookie_path = "/tmp/gmusic-youtube-cookies.txt";
    let metadata = metadata_arguments(
        "https://www.youtube.com/watch?v=M7lc1UVf-VE",
        Some(cookie_path),
    );
    let player = mpv_arguments("/tmp/gmusic-mpv.sock", 72, Some(cookie_path));

    assert!(metadata
        .windows(2)
        .any(|arguments| arguments == ["--cookies", "/tmp/gmusic-youtube-cookies.txt"]));
    assert!(player.contains(&"--ytdl-raw-options=cookies=/tmp/gmusic-youtube-cookies.txt".into()));
}

#[test]
fn starts_mpv_as_an_audio_only_best_audio_player() {
    let arguments = mpv_arguments("/tmp/gmusic-mpv.sock", 72, None);

    assert!(arguments.contains(&"--video=no".into()));
    assert!(arguments.contains(&"--ytdl-format=bestaudio".into()));
    assert!(!arguments.contains(&"--no-video".into()));
    assert!(!arguments.contains(&"--ytdl-format=bestaudio/best".into()));
}

// Further cases of the import rules.

#[test]
fn imports_refuse_a_record_without_a_playable_track() {
    let error = parse_import_metadata(collection("PL-empty", "Empty", vec![None]))
        .expect_err("nothing playable is an error");
    assert_eq!(
        error.message(),
        "could not resolve YouTube metadata: no playable tracks found in the YouTube URL"
    );
    let mut bad_id = video("not-an-id", "Title", "Channel", 1);
    bad_id.id = Some("not-an-id".into());
    assert!(parse_import_metadata(bad_id).is_err());
    let mut untitled = record("M7lc1UVf-VE");
    untitled.title = Some("   ".into());
    assert!(parse_import_metadata(untitled).is_err());
}

#[test]
fn imports_keep_each_video_once_and_fall_back_to_youtube_as_artist() {
    let tracks = parse_import_metadata(collection(
        "PL",
        "Playlist",
        vec![
            Some(record_with_title("M7lc1UVf-VE", "First")),
            Some(record_with_title("M7lc1UVf-VE", "Again")),
        ],
    ))
    .expect("one video");
    assert_eq!(tracks.len(), 1);
    assert_eq!(tracks[0].item.title, "First");
    assert_eq!(tracks[0].item.artist, "YouTube");
    assert_eq!(tracks[0].item.provider, "youtube");
    assert_eq!(tracks[0].item.duration_ms, 0);
}

fn record_with_title(id: &str, title: &str) -> YtDlpMetadata {
    let mut r = record(id);
    r.title = Some(title.into());
    r
}

#[test]
fn a_foreign_page_url_falls_back_to_the_watch_page() {
    let mut m = record_with_title("M7lc1UVf-VE", "Title");
    m.webpage_url = Some("https://example.com/video".into());
    let tracks = parse_import_metadata(m).expect("valid");
    assert_eq!(tracks[0].source_url, "https://www.youtube.com/watch?v=M7lc1UVf-VE");
}

#[test]
fn resolution_errors_report_the_first_provider_line_or_timeout() {
    assert_eq!(
        metadata_error_message("\n  \nERROR: network down\nmore\n", 0),
        "could not resolve YouTube metadata: ERROR: network down"
    );
    assert_eq!(metadata_error_message("", 0), "no playable tracks found");
    let timed_out = finish_metadata_resolution(Vec::new(), "", true).err().unwrap();
    assert_eq!(
        timed_out.message(),
        "could not resolve YouTube metadata: metadata resolution stopped after 60 seconds without a playable track"
    );
    let failed = finish_metadata_resolution(Vec::new(), "ERROR: boom", false).err().unwrap();
    assert_eq!(
        failed.message(),
        "could not resolve YouTube metadata: could not resolve YouTube metadata: ERROR: boom"
    );
}

#[test]
fn streamed_metadata_without_records_is_refused() {
    let error = parse_streamed_metadata(Vec::new()).err().unwrap();
    assert_eq!(error.message(), "could not resolve YouTube metadata: no playable tracks found");
}

#[test]
fn urls_are_trimmed_and_require_https_on_a_youtube_host() {
    assert!(validate_youtube_url("  https://m.youtube.com/watch?v=M7lc1UVf-VE  ").is_ok());
    assert!(validate_youtube_url("http://www.youtube.com/watch?v=M7lc1UVf-VE").is_err());
    assert!(validate_youtube_url("not a url").is_err());
    let parsed = validate_youtube_url("https://youtu.be/M7lc1UVf-VE").unwrap();
    assert_eq!(parsed.host.as_deref(), Some("youtu.be"));
    assert_eq!(parsed.serialized, "https://youtu.be/M7lc1UVf-VE");
}

#[test]
fn a_quiet_yt_dlp_run_times_out_after_a_minute_unless_it_exited() {
    assert_eq!(METADATA_IDLE_TIMEOUT_MS, 60_000);
    assert_eq!(idle_decision(false, 59_999), IdleDecision::Wait);
    assert_eq!(idle_decision(false, 60_000), IdleDecision::TimedOut);
    assert_eq!(idle_decision(true, 60_000), IdleDecision::Finished);
    assert_eq!(idle_decision(true, 0), IdleDecision::Finished);
}
