use gmusic::model::MediaItem;
use gmusic::playback::{shuffle_upcoming, FakePlaybackProvider, PlaybackError, PlaybackStatus, RepeatMode};

fn item(id: &str, title: &str, artist: &str, duration_ms: u64) -> MediaItem {
    MediaItem {
        id: id.into(),
        provider: "youtube".into(),
        source_url: None,
        title: title.into(),
        artist: artist.into(),
        album: None,
        album_artist: None,
        track_number: None,
        disc_number: None,
        release_date: None,
        upload_date: None,
        description: None,
        channel: None,
        channel_id: None,
        uploader: None,
        uploader_id: None,
        thumbnail_url: None,
        label: None,
        genres: Vec::new(),
        categories: Vec::new(),
        tags: Vec::new(),
        language: None,
        availability: None,
        is_live: false,
        view_count: None,
        like_count: None,
        duration_ms,
        metadata_dirty: false,
        play_count: 0,
        last_played_at_ms: None,
        play_history_ms: Vec::new(),
    }
}

fn provider() -> FakePlaybackProvider {
    FakePlaybackProvider::with_queue(vec![
        item("night-drive", "Night Drive", "Neon Avenue", 238_000),
        item("the-current", "The Current", "Harbor Lights", 201_000),
        item("soft-focus", "Soft Focus", "Paper Planes", 184_000),
    ])
}

fn current_id(provider: &FakePlaybackProvider) -> Option<String> {
    provider.snapshot().current_item.map(|item| item.id)
}

#[test]
fn play_changes_a_paused_track_to_playing() {
    let mut provider = provider();

    provider.play();

    assert_eq!(provider.snapshot().status, PlaybackStatus::Playing);
}

#[test]
fn pause_changes_a_playing_track_to_paused() {
    let mut provider = provider();
    provider.play();

    provider.pause();

    assert_eq!(provider.snapshot().status, PlaybackStatus::Paused);
}

#[test]
fn seek_clamps_position_to_the_current_track_duration() {
    let mut provider = provider();

    provider.seek(999_999);

    assert_eq!(provider.snapshot().position_ms, 238_000);
}

#[test]
fn next_selects_the_next_track_and_resets_progress() {
    let mut provider = provider();
    provider.seek(12_000);

    provider.next();

    let snapshot = provider.snapshot();
    assert_eq!(
        snapshot.current_item.as_ref().map(|item| item.id.as_str()),
        Some("the-current")
    );
    assert_eq!(snapshot.position_ms, 0);
}

#[test]
fn previous_wraps_to_the_last_track() {
    let mut provider = provider();

    provider.previous();

    assert_eq!(current_id(&provider).as_deref(), Some("soft-focus"));
}

#[test]
fn shuffles_playback_without_mutating_the_queue_or_original_next_order() {
    let mut provider = provider();
    let initial_queue = provider.snapshot().queue;

    provider.toggle_shuffle();

    assert!(provider.snapshot().shuffle_enabled);
    assert_eq!(provider.snapshot().queue, initial_queue);
    assert_eq!(provider.snapshot().playback_order.len(), 3);
    assert_eq!(provider.snapshot().playback_order[0], "night-drive");

    provider.next();
    assert_eq!(current_id(&provider).as_deref(), Some("soft-focus"));

    provider.previous();
    assert_eq!(current_id(&provider).as_deref(), Some("night-drive"));

    provider.next();
    assert_eq!(current_id(&provider).as_deref(), Some("soft-focus"));

    provider.toggle_shuffle();
    assert!(!provider.snapshot().shuffle_enabled);
    assert_eq!(provider.snapshot().queue, initial_queue);

    provider.next();
    assert_eq!(current_id(&provider).as_deref(), Some("night-drive"));
}

#[test]
fn cycles_repeat_modes() {
    let mut provider = provider();

    provider.cycle_repeat_mode();
    assert_eq!(provider.snapshot().repeat_mode.as_str(), "all");
    provider.cycle_repeat_mode();
    assert_eq!(provider.snapshot().repeat_mode.as_str(), "one");
    provider.cycle_repeat_mode();
    assert_eq!(provider.snapshot().repeat_mode.as_str(), "off");
}

#[test]
fn move_queue_item_reorders_without_changing_the_selected_track() {
    let mut provider = provider();

    provider.move_queue_item(2, 0).expect("fixture indices are valid");

    let snapshot = provider.snapshot();
    assert_eq!(snapshot.queue[0].id, "soft-focus");
    assert_eq!(
        snapshot.current_item.as_ref().map(|item| item.id.as_str()),
        Some("night-drive")
    );
}

#[test]
fn set_volume_updates_the_snapshot() {
    let mut provider = provider();

    provider.set_volume(45).expect("45 is an allowed volume");

    assert_eq!(provider.snapshot().volume_percent, 45);
}

// Further cases of the simulated player.

#[test]
fn the_simulated_player_refuses_bad_indexes_and_volumes() {
    let mut provider = provider();
    assert_eq!(
        provider.move_queue_item(3, 0),
        Err(PlaybackError::QueueIndexOutOfBounds { index: 3 })
    );
    assert_eq!(
        provider.move_queue_item(0, 7),
        Err(PlaybackError::QueueIndexOutOfBounds { index: 7 })
    );
    assert_eq!(provider.set_volume(101), Err(PlaybackError::InvalidVolume));
    assert_eq!(provider.snapshot().volume_percent, 72);
}

#[test]
fn the_simulated_player_starts_with_at_most_three_tracks() {
    let provider = FakePlaybackProvider::with_queue(vec![
        item("a", "A", "X", 1),
        item("b", "B", "X", 1),
        item("c", "C", "X", 1),
        item("d", "D", "X", 1),
    ]);
    assert_eq!(provider.snapshot().queue.len(), 3);
    assert_eq!(provider.snapshot().repeat_mode, RepeatMode::Off);
    let empty = FakePlaybackProvider::with_queue(Vec::new());
    assert!(empty.snapshot().current_item.is_none());
}

#[test]
fn shuffling_is_a_deterministic_permutation() {
    let original: Vec<String> = (0..10).map(|i| format!("t{i}")).collect();
    let mut a = original.clone();
    let mut b = original.clone();
    shuffle_upcoming(&mut a, 2, 42);
    shuffle_upcoming(&mut b, 2, 42);
    assert_eq!(a, b);
    assert_eq!(&a[..2], &original[..2]);
    let mut sorted = a.clone();
    sorted.sort();
    let mut expected = original.clone();
    expected.sort();
    assert_eq!(sorted, expected);
}

#[test]
fn previous_undoes_next_in_queue_and_shuffle_order() {
    let mut provider = provider();
    provider.seek(5_000);
    let before = provider.snapshot();
    provider.next();
    provider.previous();
    let after = provider.snapshot();
    assert_eq!(current_id(&provider).as_deref(), Some("night-drive"));
    assert_eq!(after.position_ms, 0);
    assert_eq!(after.queue, before.queue);
    assert_eq!(after.status, before.status);

    provider.toggle_shuffle();
    let order = provider.snapshot().playback_order;
    provider.next();
    provider.previous();
    assert_eq!(current_id(&provider).as_deref(), Some("night-drive"));
    assert_eq!(provider.snapshot().playback_order, order);
    assert!(provider.snapshot().shuffle_enabled);
}

#[test]
fn previous_selects_the_preceding_queue_entry_even_when_ids_repeat() {
    let mut provider = FakePlaybackProvider::with_queue(vec![
        item("z", "Zed", "Artist", 100_000),
        item("x", "First copy", "Artist", 100_000),
        item("x", "Second copy", "Artist", 100_000),
    ]);
    provider.previous();
    let current = provider.snapshot().current_item.unwrap();
    assert_eq!(current.id, "x");
    assert_eq!(current.title, "Second copy");
    assert_eq!(provider.snapshot().position_ms, 0);
}
