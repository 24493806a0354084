//! The JSON contract between the server and the web UI, as plain values: field names follow
//! the TypeScript types (in snake case), `Option` for `T | null` and for optional keys.
//! Serialization happens around the library.

use vstd::prelude::*;

verus! {

// ---- Setup, auth, settings -----------------------------------------------------

/// Non-sensitive settings any guest may see. Never includes the password.
#[derive(Debug, Clone, PartialEq)]
pub struct PublicConfig {
    pub configured: bool,
    pub port: u16,
    pub per_user_queue_limit: i32,
    pub name: String,
    pub version: String,
}

#[derive(Debug, Clone, PartialEq)]
pub struct SetupRequest {
    pub admin_password: String,
    pub port: Option<u16>,
}

#[derive(Debug, Clone, PartialEq)]
pub struct SetupResponse {
    pub ok: bool,
    /// True when the chosen port differs from the running one.
    pub restart_required: bool,
    pub port: u16,
}

#[derive(Debug, Clone, PartialEq)]
pub struct LoginRequest {
    pub password: String,
}

#[derive(Debug, Clone, PartialEq)]
pub struct AuthStatus {
    pub is_admin: bool,
    /// The request came from the host itself, which gates the native folder picker.
    pub is_local: bool,
}

#[derive(Debug, Clone, PartialEq)]
pub struct BrowseFolderResponse {
    pub canceled: bool,
    pub path: Option<String>,
}

#[derive(Debug, Clone, PartialEq)]
pub struct AdminSettings {
    pub port: u16,
    pub per_user_queue_limit: i32,
    pub downvote_skip_threshold: i32,
    pub same_song_cooldown_minutes: u32,
    pub same_artist_cooldown_minutes: u32,
    pub add_rate_limit_minutes: u32,
}

#[derive(Debug, Clone, PartialEq)]
pub struct AdminSettingsUpdate {
    pub port: Option<u16>,
    pub per_user_queue_limit: Option<i32>,
    pub downvote_skip_threshold: Option<i32>,
    pub same_song_cooldown_minutes: Option<u32>,
    pub same_artist_cooldown_minutes: Option<u32>,
    pub add_rate_limit_minutes: Option<u32>,
    pub admin_password: Option<String>,
}

/// `POST /api/admin/settings`.
#[derive(Debug, Clone, PartialEq)]
pub struct SaveSettingsResponse {
    pub restart_required: bool,
}

/// Every error response: `{ "error": "…" }`.
#[derive(Debug, Clone, PartialEq)]
pub struct ErrorBody {
    pub error: String,
}

#[derive(Debug, Clone, PartialEq)]
pub struct HealthResponse {
    pub name: String,
    pub version: String,
    /// LAN addresses guests can open.
    pub addresses: Vec<String>,
    pub port: u16,
}

// ---- Library ---------------------------------------------------------------------

#[derive(Debug, Clone, PartialEq)]
pub struct TracksQuery {
    pub search: Option<String>,
    pub artist: Option<String>,
    pub album: Option<String>,
    pub album_artist: Option<String>,
    pub no_album: Option<bool>,
    pub limit: Option<i64>,
    pub offset: Option<i64>,
}

#[derive(Debug, Clone, PartialEq)]
pub struct ArtistSummary {
    pub artist: String,
    pub track_count: i64,
    pub album_count: i64,
}

#[derive(Debug, Clone, PartialEq)]
pub struct AlbumSummary {
    pub album: String,
    pub artist: String,
    pub art_hash: Option<String>,
    pub track_count: i64,
    pub year: Option<i64>,
}

#[derive(Debug, Clone, PartialEq)]
pub struct ArtistsResponse {
    pub artists: Vec<ArtistSummary>,
    pub total: i64,
    /// Initials present in the library: A–Z, plus `#` for everything else.
    pub letters: Vec<String>,
}

#[derive(Debug, Clone, PartialEq)]
pub struct AlbumsResponse {
    pub albums: Vec<AlbumSummary>,
    pub total: i64,
}

#[derive(Debug, Clone, PartialEq)]
pub struct ScanStatus {
    pub scanning: bool,
    pub processed: i64,
    pub added: i64,
    pub updated: i64,
    pub removed: i64,
    pub total: i64,
    pub started_at: Option<String>,
    pub finished_at: Option<String>,
    pub error: Option<String>,
}

#[derive(Debug, Clone, PartialEq)]
pub struct LibraryPath {
    pub path: String,
    pub track_count: i64,
}

#[derive(Debug, Clone, PartialEq)]
pub struct LibraryPathsResponse {
    pub paths: Vec<LibraryPath>,
    pub total: i64,
}

// ---- Player ----------------------------------------------------------------------

#[derive(Debug, Clone, PartialEq)]
pub struct AudioDevice {
    pub device_id: String,
    pub label: String,
}

/// `GET /api/player/devices`.
#[derive(Debug, Clone, PartialEq)]
pub struct DevicesResponse {
    pub devices: Vec<AudioDevice>,
    pub selected: Option<String>,
}

/// `POST /api/player/output`.
#[derive(Debug, Clone, PartialEq)]
pub struct OutputResponse {
    pub ok: bool,
    pub selected: Option<String>,
}

// ---- Queue -----------------------------------------------------------------------

#[derive(Debug, Clone, PartialEq)]
pub struct EnqueueRequest {
    pub track_id: i64,
}

// ---- History & stats ---------------------------------------------------------------

/// Where a play came from.
#[derive(Debug, Clone, Copy, PartialEq, Eq)]
pub enum PlaySource {
    Guest,
    Standby,
    Random,
}

#[derive(Debug, Clone, PartialEq)]
pub struct PlayHistoryItem {
    pub id: i64,
    pub track_id: i64,
    pub title: String,
    pub artist: Option<String>,
    /// Null once the track has been pruned from the library.
    pub art_hash: Option<String>,
    /// Null for filler.
    pub requested_by_name: Option<String>,
    pub source: PlaySource,
    pub played_at: String,
}

#[derive(Debug, Clone, PartialEq)]
pub struct TrackStat {
    pub track_id: i64,
    pub title: String,
    pub artist: Option<String>,
    pub count: i64,
}

#[derive(Debug, Clone, PartialEq)]
pub struct UserStat {
    /// The IP for admins, an opaque digest of it for guests.
    pub id: String,
    /// Admins only.
    pub ip: Option<String>,
    pub name: Option<String>,
    pub requests: i64,
    pub downvotes: i64,
    /// Always false for non-admin viewers.
    pub banned: bool,
    pub banned_until: Option<String>,
}

#[derive(Debug, Clone, PartialEq)]
pub struct StatsTotals {
    pub plays: i64,
    pub requests: i64,
    pub downvotes: i64,
}

#[derive(Debug, Clone, PartialEq)]
pub struct StatsResponse {
    pub history: Vec<PlayHistoryItem>,
    pub top_played: Vec<TrackStat>,
    pub top_downvoted: Vec<TrackStat>,
    pub users: Vec<UserStat>,
    pub totals: StatsTotals,
}

#[derive(Debug, Clone, PartialEq)]
pub struct BanEntry {
    pub ip: String,
    pub name: Option<String>,
    pub banned_at: String,
    /// Null = permanent.
    pub expires_at: Option<String>,
}

#[derive(Debug, Clone, PartialEq)]
pub struct BansResponse {
    pub bans: Vec<BanEntry>,
}

#[derive(Debug, Clone, PartialEq)]
pub struct BanRequest {
    pub ip: String,
    /// Omitted or 0 = permanent.
    pub minutes: Option<u32>,
}

} // verus!
