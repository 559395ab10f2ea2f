use gmusic::media_session::{PublishedState, SyncDecision, TransportView};
use gmusic::playback::PlaybackStatus;

#[test]
fn first_transport_state_publishes_metadata_and_playback() {
    let now = 1_000_000;
    let state = PublishedState::default();
    let view = TransportView::for_test(Some("track-1"), PlaybackStatus::Playing, 10_000, 180_000);

    assert_eq!(
        state.decision(&view, now, false),
        SyncDecision { metadata: true, playback: true }
    );
}

#[test]
fn normal_playing_progress_does_not_publish_each_poll() {
    let published_at = 1_000_000;
    let view = TransportView::for_test(Some("track-1"), PlaybackStatus::Playing, 10_000, 180_000);
    let state = PublishedState::from_test(&view, published_at);
    let next = TransportView::for_test(Some("track-1"), PlaybackStatus::Playing, 11_000, 180_000);

    assert_eq!(
        state.decision(&next, published_at + 1_000, false),
        SyncDecision { metadata: false, playback: false }
    );
}

#[test]
fn seek_or_track_change_publishes_the_changed_native_state() {
    let published_at = 1_000_000;
    let original = TransportView::for_test(Some("track-1"), PlaybackStatus::Playing, 10_000, 180_000);
    let state = PublishedState::from_test(&original, published_at);
    let seeked = TransportView::for_test(Some("track-1"), PlaybackStatus::Playing, 45_000, 180_000);
    let changed_track = TransportView::for_test(Some("track-2"), PlaybackStatus::Playing, 0, 240_000);

    assert_eq!(
        state.decision(&seeked, published_at + 1_000, false),
        SyncDecision { metadata: false, playback: true }
    );
    assert_eq!(
        state.decision(&changed_track, published_at + 1_000, false),
        SyncDecision { metadata: true, playback: true }
    );
}

#[test]
fn wake_forces_a_complete_native_refresh() {
    let published_at = 1_000_000;
    let view = TransportView::for_test(Some("track-1"), PlaybackStatus::Paused, 10_000, 180_000);
    let state = PublishedState::from_test(&view, published_at);

    assert_eq!(
        state.decision(&view, published_at, true),
        SyncDecision { metadata: true, playback: true }
    );
}

// Further cases of the publication rules.

#[test]
fn a_playing_position_is_refreshed_every_fifteen_seconds() {
    let published_at = 5_000;
    let view = TransportView::for_test(Some("track-1"), PlaybackStatus::Playing, 0, 180_000);
    let state = PublishedState::from_test(&view, published_at);
    let later = TransportView::for_test(Some("track-1"), PlaybackStatus::Playing, 15_000, 180_000);
    assert_eq!(
        state.decision(&later, published_at + 15_000, false),
        SyncDecision { metadata: false, playback: true }
    );
    let earlier = TransportView::for_test(Some("track-1"), PlaybackStatus::Playing, 14_999, 180_000);
    assert_eq!(
        state.decision(&earlier, published_at + 14_999, false),
        SyncDecision { metadata: false, playback: false }
    );
}

#[test]
fn a_paused_position_that_moves_is_published_and_recorded() {
    let view = TransportView::for_test(Some("track-1"), PlaybackStatus::Paused, 10_000, 180_000);
    let mut state = PublishedState::from_test(&view, 0);
    let moved = TransportView::for_test(Some("track-1"), PlaybackStatus::Paused, 10_001, 180_000);
    assert_eq!(state.decision(&moved, 0, false), SyncDecision { metadata: false, playback: true });
    state.record(moved, 0);
    let same = TransportView::for_test(Some("track-1"), PlaybackStatus::Paused, 10_001, 180_000);
    assert_eq!(state.decision(&same, 100, false), SyncDecision { metadata: false, playback: false });
    let playing = TransportView::for_test(Some("track-1"), PlaybackStatus::Playing, 10_001, 180_000);
    assert_eq!(state.decision(&playing, 100, false), SyncDecision { metadata: false, playback: true });
}
