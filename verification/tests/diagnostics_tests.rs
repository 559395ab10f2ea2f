use gmusic::diagnostics::{dependency_diagnostic, safe_version, unavailable, version_of_text};

#[test]
fn versions_exclude_paths_and_provider_messages() {
    assert_eq!(
        safe_version(b"mpv 0.40.0 Copyright /private/path"),
        Some("0.40.0".into())
    );
    assert_eq!(safe_version(b"ERROR https://private/url /Users/private"), None);
}

#[test]
fn only_the_first_three_words_are_considered() {
    assert_eq!(safe_version(b"2025.01.15\n"), Some("2025.01.15".into()));
    assert_eq!(safe_version(b"a b c 1.0"), None);
    assert_eq!(safe_version(b"  tool\tversion 1.2.3-rc+build_7 more"), Some("1.2.3-rc+build_7".into()));
    assert_eq!(safe_version(b"1.0/evil"), None);
    assert_eq!(safe_version(&[0xff, b' ', b'3', b'.', b'1']), Some("3.1".into()));
    let long = format!("1{}", "0".repeat(40));
    assert_eq!(safe_version(long.as_bytes()), None);
}

#[test]
fn versions_are_read_from_decoded_text() {
    assert_eq!(version_of_text("yt-dlp\u{00e9} 2025.01.15 extra"), Some("2025.01.15".into()));
    assert_eq!(version_of_text("\u{fffd} \u{fffd} \u{fffd} 1.0"), None);
    assert_eq!(version_of_text("1.0\u{00e9}"), None);
    assert_eq!(version_of_text(""), None);
}

#[test]
fn missing_tools_say_how_to_install_them() {
    let found = dependency_diagnostic("mpv", Some("0.40.0".into()), true);
    assert!(found.available);
    assert_eq!(found.version.as_deref(), Some("0.40.0"));
    assert_eq!(found.message, "Available.");

    let mac = dependency_diagnostic("yt-dlp", None, true);
    assert!(!mac.available);
    assert_eq!(mac.message, "Install yt-dlp with Homebrew: brew install yt-dlp. Then restart G Music.");

    let linux = dependency_diagnostic("mpv", None, false);
    assert_eq!(linux.name, "mpv");
    assert_eq!(
        linux.message,
        "Install mpv from its official distribution and add it to PATH. Then restart G Music."
    );
}

#[test]
fn the_report_starts_without_dependencies() {
    let report = unavailable("0.1.0", "linux");
    assert_eq!(report.app_version, "0.1.0");
    assert_eq!(report.platform, "linux");
    assert!(report.dependencies.is_empty());
    assert!(report.audio_output_policy.starts_with("Use the system default audio output."));
}
