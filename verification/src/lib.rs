//! Verified core of the Vela media browser: recents curation, playlists,
//! copy selection, marker cleanup, filename parsing and the small text and
//! URL rules the media sources share.

pub mod text;
pub mod source;
pub mod seqs;
pub mod config;
pub mod recents;
pub mod selection;
pub mod playlists;
pub mod urls;
pub mod xml;
pub mod plex_library;
pub mod smb_client;
pub mod sshfs;
pub mod smb;
pub mod playback;
