use gmusic::library::YouTubePlaybackProvider;
use gmusic::metadata::{parse_import_metadata, YtDlpMetadata};
use gmusic::player::{classify_mpv_line, classify_mpv_reply, player_state, MpvReply, PlayerState};
use gmusic::playback::PlaybackStatus;

fn record(id: &str, title: &str, duration_ms: u64) -> YtDlpMetadata {
    YtDlpMetadata {
        id: Some(id.to_string()),
        title: Some(title.to_string()),
        track: None,
        artist: None,
        album: None,
        album_artist: None,
        track_number: None,
        disc_number: None,
        release_date: None,
        upload_date: None,
        description: None,
        channel: Some("Artist".to_string()),
        channel_id: None,
        uploader: None,
        uploader_id: None,
        thumbnail: None,
        categories: None,
        tags: None,
        language: None,
        availability: None,
        is_live: None,
        view_count: None,
        like_count: None,
        duration_ms: Some(duration_ms),
        webpage_url: None,
        entries: None,
    }
}

#[test]
fn replies_for_other_requests_are_skipped() {
    assert_eq!(classify_mpv_reply(Some(6), 7, Some("success")), MpvReply::Skip);
    assert_eq!(classify_mpv_reply(None, 7, Some("success")), MpvReply::Skip);
}

#[test]
fn replies_for_the_request_are_classified_by_their_error_field() {
    assert_eq!(classify_mpv_reply(Some(7), 7, Some("success")), MpvReply::Data);
    assert_eq!(classify_mpv_reply(Some(7), 7, Some("property unavailable")), MpvReply::Unavailable);
    assert_eq!(
        classify_mpv_reply(Some(7), 7, Some("invalid parameter")),
        MpvReply::Failed("invalid parameter".to_string())
    );
    assert_eq!(classify_mpv_reply(Some(7), 7, None), MpvReply::Failed("unknown mpv error".to_string()));
}

#[test]
fn an_idle_player_counts_as_the_end_of_the_track() {
    assert_eq!(
        player_state(Some(false), Some(true), Some(false), 1_500),
        PlayerState { eof_reached: true, paused: false, position_ms: 1_500 }
    );
    assert_eq!(
        player_state(None, None, None, 0),
        PlayerState { eof_reached: false, paused: true, position_ms: 0 }
    );
}

#[test]
fn a_playing_track_that_ended_advances_and_others_take_the_sample() {
    let entries = parse_import_metadata(record("M7lc1UVf-VE", "First", 120_000)).unwrap();
    let mut provider = YouTubePlaybackProvider::with_library(entries, Vec::new());
    provider.replace_queue(&vec!["M7lc1UVf-VE".to_string()]).unwrap();
    let (item, _) = provider.queued_source(0).unwrap();
    provider.mark_selected(item);

    // Paused: the end of the track is only a sample.
    assert!(!provider.observe_player(PlayerState { eof_reached: true, paused: false, position_ms: 42 }));
    assert_eq!(provider.snapshot.status, PlaybackStatus::Playing);
    assert_eq!(provider.snapshot.position_ms, 42);

    // Playing: the ended track advances and the state is left for the caller.
    assert!(provider.observe_player(PlayerState { eof_reached: true, paused: true, position_ms: 7 }));
    assert_eq!(provider.snapshot.position_ms, 42);
}

#[test]
fn reply_lines_are_read_as_json_and_classified() {
    assert_eq!(
        classify_mpv_line("{\"request_id\":7,\"error\":\"success\",\"data\":1.5}\n", 7),
        Some(MpvReply::Data)
    );
    assert_eq!(classify_mpv_line("{\"request_id\":6,\"error\":\"success\"}", 7), Some(MpvReply::Skip));
    assert_eq!(classify_mpv_line("{\"event\":\"idle\"}", 7), Some(MpvReply::Skip));
    assert_eq!(
        classify_mpv_line("{\"request_id\":7,\"error\":\"property unavailable\"}", 7),
        Some(MpvReply::Unavailable)
    );
    assert_eq!(
        classify_mpv_line("{\"request_id\":7,\"error\":\"invalid parameter\"}", 7),
        Some(MpvReply::Failed("invalid parameter".to_string()))
    );
    assert_eq!(
        classify_mpv_line("{\"request_id\":7}", 7),
        Some(MpvReply::Failed("unknown mpv error".to_string()))
    );
    assert_eq!(classify_mpv_line("not json", 7), None);
}
