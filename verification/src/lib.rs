//! A music library: smart playlists, the play queue, YouTube import metadata and the
//! supporting rules of the desktop player.
pub mod text;
pub mod model;
pub mod smart;
pub mod playback;
pub mod metadata;
pub mod player;
pub mod storage;
pub mod library;
pub mod media_session;
pub mod artwork;
pub mod windows;
pub mod diagnostics;
pub mod commands;
