use gmusic::metadata::ParsedUrl;
use gmusic::windows::{
    all_surfaces, is_youtube_auth_navigation, menu_command, menu_titles, trusted_command_window,
    MenuCommand, WindowSurface,
};

#[test]
fn native_menu_uses_standard_macos_sections() {
    assert_eq!(
        menu_titles(),
        ["G Music", "File", "Edit", "Playback", "View", "Window", "Help"]
    );
}

#[test]
fn desktop_surfaces_use_distinct_window_labels_and_routes() {
    let surfaces = all_surfaces();

    assert_eq!(surfaces.len(), 6);
    assert!(surfaces.iter().any(|surface| surface.kind == WindowSurface::Library));
    assert!(surfaces.iter().any(|surface| surface.route == "?view=artwork"));
    assert!(surfaces.iter().any(|surface| surface.label == "mini-player"));
    assert!(surfaces.iter().any(|surface| surface.route == "?view=settings"));
    assert!(surfaces.iter().any(|surface| {
        surface.kind == WindowSurface::Import && surface.label == "import" && surface.route == "?view=import"
    }));
    assert!(surfaces.iter().all(|surface| surface.label != "albums"));
    assert!(surfaces.iter().all(|surface| surface.label != "artists"));
    assert!(surfaces.iter().all(|surface| surface.transparent));
}

#[test]
fn artwork_uses_a_hidden_overlay_titlebar() {
    let surfaces = all_surfaces();
    let artwork = surfaces
        .iter()
        .find(|surface| surface.kind == WindowSurface::Artwork)
        .expect("artwork surface");

    assert!(artwork.overlay_titlebar);
    assert!(artwork.hidden_title);
    assert!(artwork.decorations);
}

#[test]
fn queue_uses_a_hidden_overlay_titlebar() {
    let surfaces = all_surfaces();
    let queue = surfaces
        .iter()
        .find(|surface| surface.kind == WindowSurface::Queue)
        .expect("queue surface");

    assert!(queue.overlay_titlebar);
    assert!(queue.hidden_title);
    assert!(queue.decorations);
}

#[test]
fn import_uses_the_library_window_chrome() {
    let surfaces = all_surfaces();
    let import = surfaces
        .iter()
        .find(|surface| surface.kind == WindowSurface::Import)
        .expect("import surface");

    assert!(import.overlay_titlebar);
    assert!(import.hidden_title);
    assert!(import.decorations);
    assert!(import.transparent);
}

#[test]
fn youtube_login_navigation_stays_on_google_and_youtube() {
    for url in [
        "https://accounts.google.com/ServiceLogin",
        "https://myaccount.google.com/",
        "https://www.youtube.com/",
        "https://music.youtube.com/",
    ] {
        assert!(is_youtube_auth_navigation(&ParsedUrl::parse(url).unwrap()));
    }
    assert!(!is_youtube_auth_navigation(&ParsedUrl::parse("https://example.com/").unwrap()));
    assert!(!is_youtube_auth_navigation(&ParsedUrl::parse("http://accounts.google.com/").unwrap()));
    assert!(!is_youtube_auth_navigation(&ParsedUrl::parse("https://notgoogle.com/").unwrap()));
}

#[test]
fn external_login_window_has_no_application_commands() {
    assert!(!trusted_command_window("youtube-auth"));
    assert!(!trusted_command_window("unknown"));
    assert!(trusted_command_window("main"));
}

#[test]
fn menu_items_map_to_their_commands() {
    assert_eq!(menu_command("window.queue"), MenuCommand::Show(WindowSurface::Queue));
    assert_eq!(menu_command("playback.toggle"), MenuCommand::TogglePlayback);
    assert_eq!(menu_command("help.keyboard-shortcuts"), MenuCommand::ShowKeyboardShortcuts);
    assert_eq!(menu_command("edit.copy"), MenuCommand::Ignore);
}
