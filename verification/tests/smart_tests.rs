use gmusic::library::YouTubePlaybackProvider;
use gmusic::metadata::{parse_import_metadata, YouTubePlaybackError, YtDlpMetadata};
use gmusic::model::MediaItem;
use gmusic::smart::{
    lowered_text_matches, resolve, SmartMatch, SmartOperator, SmartPlaylistDefinition, SmartPlaylistPreview,
    SmartPlaylistRule, SmartPlaylistSort, SmartRuleField, SmartRuleValue, SmartSortDirection,
    SmartSortField,
};

fn track(id: &str) -> MediaItem {
    MediaItem {
        id: id.into(),
        provider: "youtube".into(),
        source_url: None,
        title: "Blue Sky".into(),
        artist: "ARTIST".into(),
        album: Some("Album".into()),
        album_artist: None,
        track_number: None,
        disc_number: None,
        release_date: None,
        upload_date: None,
        description: None,
        channel: None,
        channel_id: None,
        uploader: None,
        uploader_id: None,
        thumbnail_url: None,
        label: Some("Label".into()),
        genres: vec!["Jazz".into(), "Post Rock".into()],
        categories: Vec::new(),
        tags: Vec::new(),
        language: None,
        availability: None,
        is_live: false,
        view_count: None,
        like_count: None,
        duration_ms: 120000,
        metadata_dirty: false,
        play_count: 3,
        last_played_at_ms: None,
        play_history_ms: Vec::new(),
    }
}

fn field_of(name: &str) -> SmartRuleField {
    match name {
        "title" => SmartRuleField::Title,
        "artist" => SmartRuleField::Artist,
        "album" => SmartRuleField::Album,
        "label" => SmartRuleField::Label,
        "genre" => SmartRuleField::Genre,
        "durationMs" => SmartRuleField::DurationMs,
        "playCount" => SmartRuleField::PlayCount,
        "favorite" => SmartRuleField::Favorite,
        "lastPlayedDays" => SmartRuleField::LastPlayedDays,
        other => panic!("unknown field {other}"),
    }
}

fn operator_of(name: &str) -> SmartOperator {
    match name {
        "contains" => SmartOperator::Contains,
        "equals" => SmartOperator::Equals,
        "notContains" => SmartOperator::NotContains,
        "lessThan" => SmartOperator::LessThan,
        "greaterThan" => SmartOperator::GreaterThan,
        "within" => SmartOperator::Within,
        "notWithin" => SmartOperator::NotWithin,
        other => panic!("unknown operator {other}"),
    }
}

fn sort_field_of(name: &str) -> SmartSortField {
    match name {
        "libraryOrder" => SmartSortField::LibraryOrder,
        "title" => SmartSortField::Title,
        "artist" => SmartSortField::Artist,
        "album" => SmartSortField::Album,
        "durationMs" => SmartSortField::DurationMs,
        "playCount" => SmartSortField::PlayCount,
        "lastPlayedAtMs" => SmartSortField::LastPlayedAtMs,
        other => panic!("unknown sort field {other}"),
    }
}

fn direction_of(name: &str) -> SmartSortDirection {
    if name == "asc" {
        SmartSortDirection::Asc
    } else {
        SmartSortDirection::Desc
    }
}

fn rule(field: &str, operator: &str, value: SmartRuleValue) -> SmartPlaylistRule {
    SmartPlaylistRule { field: field_of(field), operator: operator_of(operator), value }
}

fn text(value: &str) -> SmartRuleValue {
    SmartRuleValue::Text(value.to_string())
}

fn number(value: u64) -> SmartRuleValue {
    SmartRuleValue::Number(Some(value))
}

fn definition(rules: Vec<SmartPlaylistRule>) -> SmartPlaylistDefinition {
    SmartPlaylistDefinition {
        match_mode: SmartMatch::All,
        rules,
        sort: SmartPlaylistSort {
            field: SmartSortField::LibraryOrder,
            direction: SmartSortDirection::Asc,
        },
        limit: None,
    }
}

fn ids(preview: &SmartPlaylistPreview) -> Vec<&str> {
    preview.matches.iter().map(|item| item.track_id.as_str()).collect()
}

fn no_favorites() -> Vec<String> {
    Vec::new()
}

#[test]
fn smart_all_any_and_matched_rule_indexes() {
    let tracks = vec![track("a")];
    let mut def = definition(vec![
        rule("title", "contains", text("blue")),
        rule("durationMs", "lessThan", number(1)),
        rule("artist", "equals", text("artist")),
    ]);
    assert!(resolve(&def, &tracks, &no_favorites(), 0).matches.is_empty());
    def.match_mode = SmartMatch::Any;
    let preview = resolve(&def, &tracks, &no_favorites(), 0);
    assert_eq!(ids(&preview), ["a"]);
    assert_eq!(preview.matches[0].matched_rule_indexes, [0, 2]);
}

#[test]
fn smart_text_trims_case_and_matches_individual_genres() {
    for (field, op, value, expected) in [
        ("title", "contains", "  BLUE  ", true),
        ("artist", "equals", " artist ", true),
        ("album", "equals", "ALBUM", true),
        ("label", "notContains", "other", true),
        ("genre", "equals", "jazz", true),
        ("genre", "equals", "Jazz, Post Rock", false),
        ("genre", "notContains", "rock", false),
        ("genre", "notContains", "pop", true),
    ] {
        let def = definition(vec![rule(field, op, text(value))]);
        assert_eq!(
            resolve(&def, &vec![track("a")], &no_favorites(), 0).total_matches == 1,
            expected,
            "{field} {op}"
        );
    }
    let mut missing = track("missing");
    missing.album = None;
    missing.genres.clear();
    let def = definition(vec![rule("genre", "notContains", text("rock"))]);
    assert_eq!(resolve(&def, &vec![missing], &no_favorites(), 0).total_matches, 1);
}

#[test]
fn smart_numbers_and_favorite_membership() {
    for (field, op, value, expected) in [
        ("durationMs", "equals", 120000, true),
        ("durationMs", "lessThan", 120000, false),
        ("durationMs", "greaterThan", 119999, true),
        ("playCount", "equals", 3, true),
        ("playCount", "lessThan", 4, true),
        ("playCount", "greaterThan", 3, false),
    ] {
        let def = definition(vec![rule(field, op, number(value))]);
        assert_eq!(
            resolve(&def, &vec![track("a")], &no_favorites(), 0).total_matches == 1,
            expected
        );
    }
    let def = definition(vec![rule("favorite", "equals", SmartRuleValue::Boolean(true))]);
    assert_eq!(
        ids(&resolve(&def, &vec![track("a"), track("b")], &vec!["b".to_string()], 0)),
        ["b"]
    );
}

#[test]
fn smart_relative_time_includes_cutoff_and_never_played() {
    let now: u64 = 10 * 86_400_000;
    let mut tracks = vec![track("never"), track("before"), track("cutoff"), track("now")];
    tracks[1].last_played_at_ms = Some(now - 86_400_000 - 1);
    tracks[2].last_played_at_ms = Some(now - 86_400_000);
    tracks[3].last_played_at_ms = Some(now);
    let def = definition(vec![rule("lastPlayedDays", "within", number(1))]);
    assert_eq!(ids(&resolve(&def, &tracks, &no_favorites(), now)), ["cutoff", "now"]);
    assert_eq!(ids(&resolve(&def, &tracks, &no_favorites(), now + 1)), ["now"]);
    let def = definition(vec![rule("lastPlayedDays", "notWithin", number(1))]);
    assert_eq!(ids(&resolve(&def, &tracks, &no_favorites(), now)), ["never", "before"]);
    let def = definition(vec![rule("lastPlayedDays", "within", number(36500))]);
    tracks[1].last_played_at_ms = Some(0);
    assert_eq!(resolve(&def, &tracks, &no_favorites(), 0).total_matches, 3);
}

#[test]
fn smart_sort_ties_limits_and_unavailable_tracks() {
    let mut tracks = vec![track("z"), track("a"), track("hidden"), track("b")];
    tracks[2].availability = Some("subscriber_only_unavailable".into());
    for field in [
        "libraryOrder",
        "title",
        "artist",
        "album",
        "durationMs",
        "playCount",
        "lastPlayedAtMs",
    ] {
        for direction in ["asc", "desc"] {
            let mut def = definition(vec![rule("playCount", "greaterThan", number(0))]);
            def.sort = SmartPlaylistSort { field: sort_field_of(field), direction: direction_of(direction) };
            def.limit = Some(2);
            let preview = resolve(&def, &tracks, &no_favorites(), 0);
            assert_eq!(preview.total_matches, 3);
            assert_eq!(
                ids(&preview),
                if field == "libraryOrder" && direction == "desc" {
                    vec!["b", "a"]
                } else {
                    vec!["z", "a"]
                },
                "{field} {direction}"
            );
        }
    }
}

#[test]
fn smart_last_played_sort_orders_never_values() {
    let mut tracks = vec![track("never"), track("old"), track("new"), track("tie")];
    tracks[1].last_played_at_ms = Some(1);
    tracks[2].last_played_at_ms = Some(2);
    tracks[3].last_played_at_ms = Some(2);
    let mut def = definition(vec![rule("playCount", "equals", number(3))]);
    def.sort.field = SmartSortField::LastPlayedAtMs;
    assert_eq!(ids(&resolve(&def, &tracks, &no_favorites(), 0)), ["never", "old", "new", "tie"]);
    def.sort.direction = SmartSortDirection::Desc;
    assert_eq!(ids(&resolve(&def, &tracks, &no_favorites(), 0)), ["new", "tie", "old", "never"]);
}

#[test]
fn smart_validation_rejects_invalid_definitions() {
    // A JSON number that is negative or fractional is held as `Number(None)`.
    for invalid in [
        rule("title", "within", number(1)),
        rule("title", "contains", SmartRuleValue::Boolean(true)),
        rule("title", "equals", text("  ")),
        rule("title", "contains", text(&"x".repeat(201))),
        rule("durationMs", "equals", SmartRuleValue::Number(None)),
        rule("playCount", "equals", SmartRuleValue::Number(None)),
        rule("playCount", "equals", number(9007199254740992_u64)),
        rule("playCount", "equals", text("1")),
        rule("favorite", "contains", SmartRuleValue::Boolean(true)),
        rule("favorite", "equals", number(1)),
        rule("lastPlayedDays", "within", number(0)),
        rule("lastPlayedDays", "within", number(36501)),
        rule("lastPlayedDays", "notWithin", SmartRuleValue::Number(None)),
        rule("lastPlayedDays", "equals", number(1)),
    ] {
        let mut def = definition(vec![invalid]);
        def.sort.field = SmartSortField::Title;
        assert!(def.validate().is_err());
    }
    let mut def = definition(Vec::new());
    assert!(def.validate().is_err());
    def.rules = (0..21).map(|_| rule("title", "equals", text("x"))).collect();
    assert!(def.validate().is_err());
    def.rules.truncate(20);
    assert!(def.validate().is_ok());
    for limit in [0, 10001] {
        def.limit = Some(limit);
        assert!(def.validate().is_err());
    }
    def.limit = Some(10000);
    assert!(def.validate().is_ok());
}

#[test]
fn smart_sort_fields_compare_values_in_both_directions() {
    let mut tracks = vec![track("later"), track("earlier")];
    tracks[0].title = "Zulu".into();
    tracks[0].artist = "Zulu".into();
    tracks[0].album = Some("Zulu".into());
    tracks[0].duration_ms = 200000;
    tracks[0].play_count = 9;
    for field in ["title", "artist", "album", "durationMs", "playCount"] {
        for (direction, expected) in [("asc", ["earlier", "later"]), ("desc", ["later", "earlier"])] {
            let mut def = definition(vec![rule("playCount", "greaterThan", number(0))]);
            def.sort = SmartPlaylistSort { field: sort_field_of(field), direction: direction_of(direction) };
            assert_eq!(ids(&resolve(&def, &tracks, &no_favorites(), 0)), expected, "{field} {direction}");
        }
    }
}

#[test]
fn smart_validation_accepts_boundaries_and_rejects_unknown_contracts() {
    let long = "é".repeat(200);
    for (field, operator, value) in [
        ("title", "equals", text(" é ")),
        ("title", "equals", text(&long)),
        ("durationMs", "equals", number(0)),
        ("playCount", "equals", number(9007199254740991_u64)),
        ("playCount", "equals", number(1)),
        ("lastPlayedDays", "notWithin", number(36500)),
        ("favorite", "equals", SmartRuleValue::Boolean(false)),
    ] {
        assert!(definition(vec![rule(field, operator, value)]).validate().is_ok());
    }
}

#[test]
fn smart_validation_names_the_first_invalid_rule() {
    let def = definition(vec![
        rule("title", "equals", text("x")),
        rule("title", "equals", text(" ")),
        rule("favorite", "contains", SmartRuleValue::Boolean(true)),
    ]);
    assert_eq!(
        def.validate(),
        Err("smart playlist rule 2 has an invalid field, operator, or value".to_string())
    );
    let mut def = definition(vec![rule("title", "equals", text("x"))]);
    def.limit = Some(0);
    assert_eq!(def.validate(), Err("the smart playlist limit must be 1–10000".to_string()));
    assert_eq!(
        definition(Vec::new()).validate(),
        Err("a smart playlist must have 1–20 rules".to_string())
    );
}

#[test]
fn smart_normalized_trims_text_values() {
    let def = definition(vec![rule("title", "contains", text("  Blue  ")), rule("playCount", "equals", number(3))]);
    let saved = def.normalized().expect("valid definition");
    assert_eq!(saved.rules[0].value, text("Blue"));
    assert_eq!(saved.rules[1].value, number(3));
}

fn record(id: &str, title: &str, duration_ms: u64) -> YtDlpMetadata {
    YtDlpMetadata {
        id: Some(id.to_string()),
        title: Some(title.to_string()),
        track: None,
        artist: None,
        album: None,
        album_artist: None,
        track_number: None,
        disc_number: None,
        release_date: None,
        upload_date: None,
        description: None,
        channel: Some("Artist".to_string()),
        channel_id: None,
        uploader: None,
        uploader_id: None,
        thumbnail: None,
        categories: None,
        tags: None,
        language: None,
        availability: None,
        is_live: None,
        view_count: None,
        like_count: None,
        duration_ms: Some(duration_ms),
        webpage_url: None,
        entries: None,
    }
}

#[test]
fn smart_preview_and_freeze_use_current_order_and_do_not_change_playback() {
    let mut root = record("PL-example", "Playlist", 0);
    root.duration_ms = None;
    root.entries = Some(vec![
        Some(record("M7lc1UVf-VE", "Zulu", 120_000)),
        Some(record("BaW_jenozKc", "Alpha", 90_000)),
        Some(record("aqz-KE-bpKQ", "Middle", 180_000)),
    ]);
    let entries = parse_import_metadata(root).unwrap();
    let mut provider = YouTubePlaybackProvider::with_library(entries, Vec::new());
    provider.replace_queue(&vec!["M7lc1UVf-VE".to_string()]).unwrap();
    let before = provider.library_snapshot();
    let queue = provider.complete_snapshot();
    let mut def = definition(vec![rule("durationMs", "lessThan", number(200000))]);
    def.sort = SmartPlaylistSort { field: SmartSortField::Title, direction: SmartSortDirection::Asc };
    def.limit = Some(2);
    let preview = provider.preview_smart_playlist(&def, 0).unwrap();
    assert_eq!(preview.total_matches, 3);
    assert_eq!(ids(&preview), ["BaW_jenozKc", "aqz-KE-bpKQ"]);
    assert_eq!(preview.matches[0].matched_rule_indexes, [0]);
    assert_eq!(provider.library_snapshot(), before);
    assert_eq!(provider.complete_snapshot(), queue);

    let invalid = definition(vec![rule("title", "equals", text(" "))]);
    assert_eq!(
        provider.preview_smart_playlist(&invalid, 0),
        Err(YouTubePlaybackError::InvalidPlaylist(
            "smart playlist rule 1 has an invalid field, operator, or value".to_string()
        ))
    );
}

#[test]
fn lowered_text_tests_equality_or_substring() {
    let chars = |s: &str| s.chars().collect::<Vec<char>>();
    assert!(lowered_text_matches(SmartOperator::Equals, &chars("jazz"), &chars("jazz")));
    assert!(!lowered_text_matches(SmartOperator::Equals, &chars("jazz fusion"), &chars("jazz")));
    assert!(lowered_text_matches(SmartOperator::Contains, &chars("jazz fusion"), &chars("fus")));
    assert!(lowered_text_matches(SmartOperator::NotContains, &chars("post rock"), &chars("rock")));
    assert!(!lowered_text_matches(SmartOperator::Contains, &chars("pop"), &chars("rock")));
    assert!(lowered_text_matches(SmartOperator::Contains, &chars("pop"), &chars("")));
}
