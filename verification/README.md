# gmusic

The library behind G Music, a desktop player for music imported from YouTube, with its
behaviour stated as Verus contracts and proved.

## Layout

- `src/` — the verified library.
  - `text.rs` — characters, white space, trimming, lines, ordering of text.
  - `model.rs` — tracks, playlists, edit forms and the library snapshot.
  - `smart.rs` — smart playlist rules: validation, evaluation, ordering and limits.
  - `playback.rs` — the playback snapshot, repeat modes, the shuffle and an in-memory
    player (`FakePlaybackProvider`).
  - `metadata.rs` — YouTube URLs, yt-dlp records, import and merge rules, error texts,
    the command lines of yt-dlp and mpv, and when a quiet yt-dlp run times out.
  - `library.rs` — the library and its play queue: favorites, most played, edits,
    removal, playlists, queue steps, history, restore.
  - `player.rs` — the decisions of mpv's IPC exchange: what a reply line means.
  - `storage.rs` — how lists of text are kept in the database (JSON arrays).
  - `media_session.rs` — what the system's Now Playing controls are sent, and when.
  - `artwork.rs` — artwork URLs, cache keys, eviction, image checks, fetch backoff and the
    steps of an artwork lookup.
  - `windows.rs` — the window table, the menu and the sign-in window's navigation.
  - `diagnostics.rs` — the version token shown for an external tool.
  - `commands.rs` — command errors, the single import run and its steps, and background
    refreshes.
- `tests/` — tests of the library on concrete values.
- `app/` — the desktop application around the library: windows and commands, the mpv and
  yt-dlp processes, the SQLite database, HTTP downloads and the local control socket.
