//! The music library's rules: which files are audio, walking folders, keeping the folder
//! list, the browse and search queries, reading tags into a track, and the scanner's state.

pub mod export;
pub mod folders;
pub mod js;
pub mod metadata;
pub mod query;
pub mod scan;
pub mod walk;
