//! Kyylan Jukebox: the rules of a LAN party jukebox — its queue, standby playlist, bans,
//! stats, library folders and queries, and the JavaScript behaviours the web UI's data was
//! shaped by — as verified plain-value logic.

use vstd::prelude::*;

pub mod audio;
pub mod config;
pub mod db;
pub mod engine;
pub mod hash;
pub mod js;
pub mod mp4;
pub mod library;
pub mod paths;
pub mod player;
pub mod text;
pub mod types;
