use gmusic::library::{
    snapshot_requires_broadcast, validate_legacy_library, validate_stored_playlists,
    SavedPlaybackState, Step, YouTubePlaybackProvider,
};
use gmusic::metadata::{parse_import_metadata, QueueEntry, ResolvedYouTubeImport, YtDlpMetadata};
use gmusic::model::{EditableTrackMetadata, Playlist};
use gmusic::playback::{PlaybackSnapshot, PlaybackStatus, RepeatMode};

fn record(id: &str, title: &str, channel: &str, duration_ms: u64) -> YtDlpMetadata {
    YtDlpMetadata {
        id: Some(id.to_string()),
        title: Some(title.to_string()),
        track: None,
        artist: None,
        album: None,
        album_artist: None,
        track_number: None,
        disc_number: None,
        release_date: None,
        upload_date: None,
        description: None,
        channel: Some(channel.to_string()),
        channel_id: None,
        uploader: None,
        uploader_id: None,
        thumbnail: None,
        categories: None,
        tags: None,
        language: None,
        availability: None,
        is_live: None,
        view_count: None,
        like_count: None,
        duration_ms: Some(duration_ms),
        webpage_url: None,
        entries: None,
    }
}

fn playlist_of(tracks: Vec<YtDlpMetadata>) -> Vec<QueueEntry> {
    let mut root = record("PL-example", "Playlist", "", 0);
    root.channel = None;
    root.duration_ms = None;
    root.entries = Some(tracks.into_iter().map(Some).collect());
    parse_import_metadata(root).expect("fixture metadata is valid")
}

fn two_tracks(first: &str, second: &str) -> Vec<QueueEntry> {
    playlist_of(vec![
        record("M7lc1UVf-VE", first, "Artist", 120_000),
        record("BaW_jenozKc", second, "Artist", 90_000),
    ])
}

fn queue_ids(provider: &YouTubePlaybackProvider) -> Vec<String> {
    provider.snapshot.queue.iter().map(|item| item.id.clone()).collect()
}

fn edit(title: &str, artist: &str, album: Option<&str>, label: Option<&str>, genres: &[&str]) -> EditableTrackMetadata {
    EditableTrackMetadata {
        title: title.into(),
        artist: artist.into(),
        album: album.map(String::from),
        label: label.map(String::from),
        genres: genres.iter().map(|g| g.to_string()).collect(),
    }
}

#[test]
fn keeps_a_loaded_library_out_of_the_new_play_queue() {
    let mut provider = YouTubePlaybackProvider::with_library(two_tracks("First", "Second"), Vec::new());

    assert_eq!(provider.library_snapshot().tracks.len(), 2);
    assert!(provider.snapshot.queue.is_empty());

    provider
        .replace_queue(&vec!["BaW_jenozKc".into(), "M7lc1UVf-VE".into()])
        .expect("known library tracks create a play queue");
    provider
        .queue_track_next("M7lc1UVf-VE")
        .expect("a library track can be placed next");
    provider
        .add_to_queue("BaW_jenozKc")
        .expect("a library track can be added to the queue");

    assert_eq!(queue_ids(&provider), ["M7lc1UVf-VE", "BaW_jenozKc"]);
    assert_eq!(provider.library_snapshot().tracks.len(), 2);
}

#[test]
fn removes_the_final_track_from_a_non_repeating_queue_when_it_ends() {
    let mut provider = YouTubePlaybackProvider::with_library(two_tracks("First", "Final"), Vec::new());
    provider
        .replace_queue(&vec!["M7lc1UVf-VE".into(), "BaW_jenozKc".into()])
        .expect("known library tracks create a play queue");
    provider.snapshot.current_item = Some(provider.snapshot.queue[1].clone());
    provider.snapshot.status = PlaybackStatus::Playing;
    provider.snapshot.position_ms = 90_000;

    match provider.next_step(1).expect("the final queue track can finish") {
        Step::Finish => provider.finish_queue(),
        other => panic!("unexpected step {other:?}"),
    }

    assert!(provider.snapshot.queue.is_empty());
    assert!(provider.snapshot.current_item.is_none());
    assert_eq!(provider.snapshot.position_ms, 0);
    assert_eq!(provider.snapshot.status, PlaybackStatus::Paused);
}

#[test]
fn queue_completion_requires_a_playback_snapshot_broadcast() {
    let entries = parse_import_metadata(record("M7lc1UVf-VE", "Finished", "Artist", 90_000))
        .expect("fixture metadata is valid");
    let item = entries[0].item.clone();
    let before = PlaybackSnapshot {
        current_item: Some(item.clone()),
        playback_order: vec![item.id.clone()],
        position_ms: item.duration_ms,
        queue: vec![item],
        repeat_mode: RepeatMode::Off,
        shuffle_enabled: false,
        status: PlaybackStatus::Playing,
        volume_percent: 72,
    };
    let after = PlaybackSnapshot {
        current_item: None,
        playback_order: vec![],
        position_ms: 0,
        queue: vec![],
        repeat_mode: RepeatMode::Off,
        shuffle_enabled: false,
        status: PlaybackStatus::Paused,
        volume_percent: 72,
    };

    assert!(snapshot_requires_broadcast(&before, &after));

    let position_only = PlaybackSnapshot {
        position_ms: 1_000,
        ..before.clone()
    };
    assert!(!snapshot_requires_broadcast(&before, &position_only));
}

#[test]
fn toggling_shuffle_preserves_the_authoritative_queue_order() {
    let entries = playlist_of(vec![
        record("M7lc1UVf-VE", "First", "Artist", 120_000),
        record("BaW_jenozKc", "Second", "Artist", 90_000),
        record("aqz-KE-bpKQ", "Third", "Artist", 100_000),
    ]);
    let mut provider = YouTubePlaybackProvider::with_library(entries, Vec::new());
    let queue_ids_expected = vec![
        "M7lc1UVf-VE".to_owned(),
        "BaW_jenozKc".to_owned(),
        "aqz-KE-bpKQ".to_owned(),
    ];
    provider
        .replace_queue(&queue_ids_expected)
        .expect("known library tracks create a play queue");

    provider.toggle_shuffle(12_345);
    assert!(provider.snapshot.shuffle_enabled);
    assert_eq!(queue_ids(&provider), queue_ids_expected);
    assert_eq!(provider.complete_snapshot().playback_order, provider.shuffle_order);

    provider.toggle_shuffle(12_345);
    assert!(!provider.snapshot.shuffle_enabled);
    assert_eq!(queue_ids(&provider), queue_ids_expected);
}

#[test]
fn removes_an_upcoming_item_without_changing_the_library() {
    let mut provider = YouTubePlaybackProvider::with_library(two_tracks("First", "Second"), Vec::new());
    provider
        .replace_queue(&vec!["M7lc1UVf-VE".into(), "BaW_jenozKc".into()])
        .expect("known library tracks create a play queue");

    provider
        .remove_queue_item(1)
        .expect("an upcoming queue item can be removed");

    assert_eq!(provider.snapshot.queue.len(), 1);
    assert_eq!(provider.snapshot.queue[0].id, "M7lc1UVf-VE");
    assert_eq!(provider.library_snapshot().tracks.len(), 2);
}

#[test]
fn maintains_favorites_and_most_played_default_playlists() {
    let mut provider = YouTubePlaybackProvider::with_library(two_tracks("First", "Second"), Vec::new());

    provider
        .toggle_favorite("BaW_jenozKc")
        .expect("a library track can be favorited");
    provider
        .record_playback_start("M7lc1UVf-VE", 10)
        .expect("a library track can be played");
    provider
        .record_playback_start("BaW_jenozKc", 20)
        .expect("a library track can be played");
    provider
        .record_playback_start("BaW_jenozKc", 30)
        .expect("a library track can be played again");

    let library = provider.library_snapshot();
    assert_eq!(
        library
            .playlists
            .iter()
            .map(|playlist| (playlist.id.as_str(), playlist.name.as_str()))
            .collect::<Vec<_>>(),
        [("favorites", "Favorites"), ("most-played", "Most Played")]
    );
    assert_eq!(library.playlists[0].track_ids, ["BaW_jenozKc"]);
    assert_eq!(library.playlists[1].track_ids, ["BaW_jenozKc", "M7lc1UVf-VE"]);
}

#[test]
fn updates_user_owned_track_metadata_without_changing_its_source() {
    let mut provider = YouTubePlaybackProvider::new();
    provider.entries = parse_import_metadata(record("M7lc1UVf-VE", "Original", "Channel", 120_000))
        .expect("fixture metadata is valid");

    provider
        .update_track_metadata(
            "M7lc1UVf-VE",
            edit(
                "Edited title",
                "Edited artist",
                Some("Edited album"),
                Some("Edited label"),
                &["Electronic", "electronic", "Ambient"],
            ),
        )
        .expect("known tracks accept metadata updates");

    let track = &provider.entries[0];
    assert_eq!(track.item.title, "Edited title");
    assert_eq!(track.item.artist, "Edited artist");
    assert_eq!(track.item.album.as_deref(), Some("Edited album"));
    assert_eq!(track.item.label.as_deref(), Some("Edited label"));
    assert_eq!(track.item.genres, ["Electronic", "Ambient"]);
    assert_eq!(track.source_url, "https://www.youtube.com/watch?v=M7lc1UVf-VE");
}

#[test]
fn removes_tracks_from_the_library_queue_and_playlists() {
    let mut provider = YouTubePlaybackProvider::new();
    provider.entries = two_tracks("First", "Second");
    provider.playlists = vec![Playlist {
        id: "focus".into(),
        name: "Focus".into(),
        track_ids: vec!["M7lc1UVf-VE".into(), "BaW_jenozKc".into()],
    }];

    provider
        .remove_tracks(&vec!["M7lc1UVf-VE".into()])
        .expect("known tracks can be removed");

    let library = provider.library_snapshot();
    assert_eq!(library.tracks.len(), 1);
    assert_eq!(library.tracks[0].id, "BaW_jenozKc");
    assert_eq!(
        library
            .playlists
            .iter()
            .find(|playlist| playlist.id == "focus")
            .expect("the custom playlist remains in the library")
            .track_ids,
        ["BaW_jenozKc"]
    );
    assert!(provider.snapshot.queue.is_empty());
}

#[test]
fn updates_multiple_tracks_metadata_in_one_library_operation() {
    let mut provider = YouTubePlaybackProvider::new();
    provider.entries = two_tracks("First", "Second");

    provider
        .update_tracks_metadata(vec![
            (
                "M7lc1UVf-VE".into(),
                edit("Updated first", "First artist", None, Some("First label"), &["Ambient"]),
            ),
            (
                "BaW_jenozKc".into(),
                edit(
                    "Updated second",
                    "Second artist",
                    Some("Second album"),
                    Some("Second label"),
                    &["Electronic"],
                ),
            ),
        ])
        .expect("known tracks accept batch metadata updates");

    let library = provider.library_snapshot();
    assert_eq!(library.tracks[0].title, "Updated first");
    assert_eq!(library.tracks[0].label.as_deref(), Some("First label"));
    assert_eq!(library.tracks[1].title, "Updated second");
    assert_eq!(library.tracks[1].album.as_deref(), Some("Second album"));
}

#[test]
fn stores_playlists_against_stable_track_ids() {
    let mut provider = YouTubePlaybackProvider::new();
    provider.entries = two_tracks("First", "Second");

    provider
        .upsert_playlist(Playlist {
            id: "focus".into(),
            name: "Focus".into(),
            track_ids: vec!["BaW_jenozKc".into(), "M7lc1UVf-VE".into()],
        })
        .expect("a playlist with known tracks is valid");

    assert_eq!(provider.playlists.len(), 1);
    assert_eq!(provider.playlists[0].name, "Focus");
    assert_eq!(provider.playlists[0].track_ids, ["BaW_jenozKc", "M7lc1UVf-VE"]);
}

#[test]
fn records_each_started_play_without_losing_track_metadata() {
    let mut provider = YouTubePlaybackProvider::new();
    provider.entries = parse_import_metadata(record("M7lc1UVf-VE", "Track", "Channel", 120_000))
        .expect("fixture metadata is valid");
    provider.snapshot.current_item = Some(provider.entries[0].item.clone());

    provider
        .record_playback_start("M7lc1UVf-VE", 1_734_000_000_000)
        .expect("known tracks can record a play");
    provider
        .record_playback_start("M7lc1UVf-VE", 1_734_000_060_000)
        .expect("repeated track plays are counted");

    let library = provider.library_snapshot();
    assert_eq!(library.total_plays, 2);
    assert_eq!(library.tracks[0].play_count, 2);
    assert_eq!(library.tracks[0].last_played_at_ms, Some(1_734_000_060_000));
    assert_eq!(library.tracks[0].play_history_ms, [1_734_000_000_000, 1_734_000_060_000]);
    assert_eq!(
        provider.snapshot.current_item.as_ref().map(|item| item.play_count),
        Some(2)
    );
}

#[test]
fn selecting_an_unknown_library_track_returns_a_specific_error() {
    let mut provider = YouTubePlaybackProvider::new();

    let error = provider
        .play_track("missing-track", 1)
        .expect_err("an unknown track must not start the player");

    assert_eq!(error.message(), "track missing-track is not in the current queue");
}

// Further cases of the library rules.

#[test]
fn removing_playlist_membership_keeps_the_queue_and_other_playlists() {
    let mut provider = YouTubePlaybackProvider::new();
    provider.entries = two_tracks("First", "Second");
    let ids: Vec<String> = vec!["M7lc1UVf-VE".into(), "BaW_jenozKc".into()];
    provider.replace_queue(&ids).expect("known tracks can be queued");
    let before = provider.snapshot.clone();
    for id in ["focus", "other"] {
        provider
            .upsert_playlist(Playlist { id: id.into(), name: id.into(), track_ids: ids.clone() })
            .expect("known tracks can be added to a playlist");
    }
    provider.toggle_favorite("M7lc1UVf-VE").expect("known tracks can be favorited");
    provider
        .upsert_playlist(Playlist {
            id: "focus".into(),
            name: "focus".into(),
            track_ids: vec!["BaW_jenozKc".into()],
        })
        .expect("playlist membership can be removed");
    assert_eq!(provider.snapshot, before);
    let library = provider.library_snapshot();
    let find = |id: &str| library.playlists.iter().find(|p| p.id == id).unwrap().track_ids.clone();
    assert_eq!(find("focus"), ["BaW_jenozKc"]);
    assert_eq!(find("other"), ids);
    assert_eq!(find("favorites"), ["M7lc1UVf-VE"]);
}

#[test]
fn reorders_user_playlists_after_the_default_ones() {
    let mut provider = YouTubePlaybackProvider::new();
    for (id, name) in [("focus", "Focus"), ("road-trip", "Road Trip")] {
        provider
            .upsert_playlist(Playlist { id: id.into(), name: name.into(), track_ids: Vec::new() })
            .expect("user playlists are valid");
    }
    provider
        .reorder_playlists(&vec!["road-trip".into(), "focus".into()])
        .expect("the user playlist order is valid");
    assert_eq!(
        provider
            .library_snapshot()
            .playlists
            .iter()
            .map(|playlist| playlist.id.as_str())
            .collect::<Vec<_>>(),
        ["favorites", "most-played", "road-trip", "focus"]
    );
    let error = provider.reorder_playlists(&vec!["focus".into()]).err().unwrap();
    assert_eq!(
        error.message(),
        "playlist is invalid: playlist order must contain every user playlist exactly once"
    );
    let error = provider
        .reorder_playlists(&vec!["focus".into(), "focus".into(), "road-trip".into()])
        .err()
        .unwrap();
    assert!(error.message().contains("exactly once"));
}

#[test]
fn restores_the_saved_queue_current_track_and_settings() {
    let mut provider = YouTubePlaybackProvider::with_library(two_tracks("First track", "Second track"), Vec::new());
    provider.restore_playback_state(SavedPlaybackState {
        current_item_id: Some("BaW_jenozKc".into()),
        position_ms: 34_000,
        volume_percent: 41,
        shuffle_enabled: true,
        repeat_mode: RepeatMode::All,
        queue_ids: vec!["BaW_jenozKc".into(), "missing".into(), "M7lc1UVf-VE".into()],
        shuffle_order: vec!["BaW_jenozKc".into(), "M7lc1UVf-VE".into()],
    });
    let snapshot = provider.complete_snapshot();
    assert_eq!(
        snapshot.queue.iter().map(|item| item.id.as_str()).collect::<Vec<_>>(),
        ["BaW_jenozKc", "M7lc1UVf-VE"]
    );
    assert_eq!(snapshot.current_item.as_ref().map(|item| item.id.as_str()), Some("BaW_jenozKc"));
    assert_eq!(snapshot.position_ms, 34_000);
    assert_eq!(snapshot.volume_percent, 41);
    assert!(snapshot.shuffle_enabled);
    assert_eq!(snapshot.repeat_mode, RepeatMode::All);
    assert_eq!(snapshot.status, PlaybackStatus::Paused);
    assert_eq!(provider.shuffle_order, ["BaW_jenozKc", "M7lc1UVf-VE"]);
}

#[test]
fn restoring_clamps_the_position_to_the_track() {
    let mut provider = YouTubePlaybackProvider::with_library(two_tracks("First", "Second"), Vec::new());
    provider.restore_playback_state(SavedPlaybackState {
        current_item_id: Some("BaW_jenozKc".into()),
        position_ms: 999_999,
        volume_percent: 72,
        shuffle_enabled: false,
        repeat_mode: RepeatMode::Off,
        queue_ids: vec!["BaW_jenozKc".into()],
        shuffle_order: vec!["BaW_jenozKc".into()],
    });
    assert_eq!(provider.snapshot.position_ms, 90_000);
    assert!(provider.shuffle_order.is_empty());
}

#[test]
fn edits_are_checked_before_the_track() {
    let mut provider = YouTubePlaybackProvider::with_library(two_tracks("First", "Second"), Vec::new());
    let blank = provider.update_track_metadata("missing", edit("  ", "Artist", None, None, &[]));
    assert_eq!(blank.err().unwrap().message(), "track metadata is invalid: title must not be empty");
    let missing = provider.update_track_metadata("missing", edit("Title", "Artist", None, None, &[]));
    assert_eq!(missing.err().unwrap().message(), "track missing is not in the current queue");
    let duplicate = provider.update_tracks_metadata(vec![
        ("M7lc1UVf-VE".into(), edit("A", "B", None, None, &[])),
        ("M7lc1UVf-VE".into(), edit("C", "D", None, None, &[])),
    ]);
    assert_eq!(
        duplicate.err().unwrap().message(),
        "track metadata is invalid: the batch contains duplicate track IDs"
    );
    assert_eq!(provider.entries[0].item.title, "First");
}

#[test]
fn playlists_refuse_defaults_blank_names_and_unknown_tracks() {
    let mut provider = YouTubePlaybackProvider::with_library(two_tracks("First", "Second"), Vec::new());
    let default = provider.upsert_playlist(Playlist { id: "favorites".into(), name: "F".into(), track_ids: vec![] });
    assert_eq!(
        default.err().unwrap().message(),
        "playlist is invalid: default playlists cannot be edited directly"
    );
    let blank = provider.upsert_playlist(Playlist { id: "x".into(), name: " ".into(), track_ids: vec![] });
    assert_eq!(blank.err().unwrap().message(), "track metadata is invalid: playlist name must not be empty");
    let unknown = provider.upsert_playlist(Playlist {
        id: "x".into(),
        name: "X".into(),
        track_ids: vec!["M7lc1UVf-VE".into(), "nope".into()],
    });
    assert_eq!(unknown.err().unwrap().message(), "playlist is invalid: track nope is not in the library");
    assert_eq!(
        provider.delete_playlist("most-played").err().unwrap().message(),
        "playlist is invalid: default playlists cannot be deleted"
    );
    assert_eq!(
        provider.delete_playlist("ghost").err().unwrap().message(),
        "playlist is invalid: playlist ghost does not exist"
    );
    provider
        .upsert_playlist(Playlist {
            id: " mix ".into(),
            name: " Mix ".into(),
            track_ids: vec!["M7lc1UVf-VE".into(), "M7lc1UVf-VE".into()],
        })
        .unwrap();
    assert_eq!(provider.playlists[0].id, "mix");
    assert_eq!(provider.playlists[0].track_ids, ["M7lc1UVf-VE"]);
    provider.delete_playlist("mix").unwrap();
    assert!(provider.playlists.is_empty());
}

#[test]
fn toggling_a_favorite_twice_restores_the_favorites() {
    let mut provider = YouTubePlaybackProvider::with_library(two_tracks("First", "Second"), Vec::new());
    provider.toggle_favorite("M7lc1UVf-VE").unwrap();
    assert_eq!(provider.playlists[0].track_ids, ["M7lc1UVf-VE"]);
    provider.toggle_favorite("M7lc1UVf-VE").unwrap();
    assert!(provider.playlists[0].track_ids.is_empty());
    assert_eq!(
        provider.toggle_favorite("nope").err().unwrap().message(),
        "track nope is not in the current queue"
    );
}

#[test]
fn play_history_keeps_the_newest_five_hundred_plays() {
    let mut provider = YouTubePlaybackProvider::with_library(two_tracks("First", "Second"), Vec::new());
    for t in 0..501u64 {
        provider.record_playback_start("M7lc1UVf-VE", t).unwrap();
    }
    let item = &provider.entries[0].item;
    assert_eq!(item.play_history_ms.len(), 500);
    assert_eq!(item.play_history_ms[0], 1);
    assert_eq!(item.play_history_ms[499], 500);
    assert_eq!(item.play_count, 501);
}

#[test]
fn queue_steps_follow_repeat_and_wrap() {
    let mut provider = YouTubePlaybackProvider::with_library(two_tracks("First", "Second"), Vec::new());
    provider.replace_queue(&vec!["M7lc1UVf-VE".into(), "BaW_jenozKc".into()]).unwrap();
    provider.snapshot.current_item = Some(provider.snapshot.queue[0].clone());
    assert_eq!(provider.next_step(0).unwrap(), Step::Select(1));
    assert_eq!(provider.previous_step().unwrap(), Step::Select(1));
    provider.snapshot.repeat_mode = RepeatMode::All;
    assert_eq!(provider.next_step(1).unwrap(), Step::Select(0));
    provider.snapshot.repeat_mode = RepeatMode::One;
    assert_eq!(provider.next_step(1).unwrap(), Step::Select(1));
    assert_eq!(
        provider.move_queue_item(5, 0).err().unwrap().message(),
        "queue index 5 is outside the current queue"
    );
    assert_eq!(
        provider.remove_queue_item(0).err().unwrap().message(),
        "the current queue item cannot be removed"
    );
    assert_eq!(provider.set_volume(101).err().unwrap().message(), "volume must be between 0 and 100");
    provider.set_volume(30).unwrap();
    assert_eq!(provider.snapshot.volume_percent, 30);
    assert_eq!(provider.seek(999_999), Some(120_000));
    assert_eq!(provider.cycle_repeat_mode(), RepeatMode::Off);
}

#[test]
fn stored_libraries_are_checked() {
    let entries = two_tracks("First", "Second");
    let dup = vec![
        Playlist { id: "a".into(), name: "A".into(), track_ids: vec![] },
        Playlist { id: "a".into(), name: "B".into(), track_ids: vec![] },
    ];
    assert_eq!(
        validate_stored_playlists(&entries, &dup).err().unwrap().message(),
        "could not access the imported library: the library contains duplicate playlist IDs"
    );
    let unknown = vec![Playlist { id: "a".into(), name: "A".into(), track_ids: vec!["x".into()] }];
    assert!(validate_stored_playlists(&entries, &unknown).is_err());
    assert!(validate_stored_playlists(&entries, &vec![]).is_ok());
    assert_eq!(
        validate_legacy_library(3, &entries, &vec![]).err().unwrap().message(),
        "could not access the imported library: unsupported library version 3"
    );
    assert!(validate_legacy_library(2, &entries, &vec![]).is_ok());
}

#[test]
fn dirty_tracks_are_listed_for_refresh() {
    let mut provider = YouTubePlaybackProvider::with_library(two_tracks("First", "Second"), Vec::new());
    provider.entries[1].item.metadata_dirty = true;
    let dirty = provider.dirty_tracks();
    assert_eq!(dirty.len(), 1);
    assert_eq!(dirty[0].id, "BaW_jenozKc");
    assert_eq!(
        provider.dirty_track_source("BaW_jenozKc").as_deref(),
        Some("https://www.youtube.com/watch?v=BaW_jenozKc")
    );
    assert_eq!(provider.dirty_track_source("M7lc1UVf-VE"), None);
}

#[test]
fn imports_keep_the_listening_queue_and_playback_state() {
    let mut provider = YouTubePlaybackProvider::with_library(two_tracks("First", "Second"), Vec::new());
    provider
        .replace_queue(&vec!["BaW_jenozKc".into(), "M7lc1UVf-VE".into()])
        .expect("known library tracks create a play queue");
    let before = provider.snapshot.clone();

    let imported = ResolvedYouTubeImport {
        entries: playlist_of(vec![
            record("aqz-KE-bpKQ", "Third", "Artist", 60_000),
            record("M7lc1UVf-VE", "First (remaster)", "Artist", 120_000),
        ]),
        skipped_member_only: 0,
        skipped_member_only_ids: Vec::new(),
        timed_out_sources: 0,
    };
    let snapshot = provider.commit_youtube_import(imported);

    assert_eq!(queue_ids(&provider), ["BaW_jenozKc", "M7lc1UVf-VE"]);
    assert_eq!(snapshot.status, before.status);
    assert_eq!(snapshot.position_ms, before.position_ms);
    assert_eq!(snapshot.volume_percent, before.volume_percent);
    assert_eq!(provider.snapshot.queue[1].title, "First (remaster)");
    assert_eq!(provider.library_snapshot().tracks.len(), 3);
}
