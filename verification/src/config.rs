//! The settings the library's rules read. The file itself, `config.json`, is read and
//! written around the library; this is its content as plain values.

use vstd::prelude::*;

use crate::text::{chars_of, decimal, push_all, push_str, string_of, u64_decimal};

verus! {

/// The settings in `config.json`, as the rules read them: `AppConfig` in the web UI's types.
pub struct AppConfig {
    pub configured: bool,
    pub port: u16,
    /// Plaintext by design: a LAN party convenience.
    pub admin_password: String,
    pub library_paths: Vec<String>,
    /// 0 = no limit; negative applies the absolute value but hides the counter.
    pub per_user_queue_limit: i32,
    pub output_device_id: Option<String>,
    pub standby_enabled: bool,
    pub standby_shuffle: bool,
    pub standby_random_enabled: bool,
    /// 0 = disabled; negative uses the absolute value but hides the count.
    pub downvote_skip_threshold: i32,
    pub same_song_cooldown_minutes: u32,
    pub same_artist_cooldown_minutes: u32,
    pub add_rate_limit_minutes: u32,
}

impl AppConfig {
    /// `DEFAULT_CONFIG` in the web UI's types.
    pub fn defaults() -> (c: AppConfig)
        ensures
            !c.configured,
            c.port == 8080,
            c.admin_password@.len() == 0,
            c.library_paths@.len() == 0,
            c.per_user_queue_limit == 3,
            c.output_device_id.is_none(),
            !c.standby_enabled,
            !c.standby_shuffle,
            !c.standby_random_enabled,
            c.downvote_skip_threshold == 0,
            c.same_song_cooldown_minutes == 0,
            c.same_artist_cooldown_minutes == 0,
            c.add_rate_limit_minutes == 0,
    {
        AppConfig {
            configured: false,
            port: 8080,
            admin_password: String::new(),
            library_paths: Vec::new(),
            per_user_queue_limit: 3,
            output_device_id: None,
            standby_enabled: false,
            standby_shuffle: false,
            standby_random_enabled: false,
            downvote_skip_threshold: 0,
            same_song_cooldown_minutes: 0,
            same_artist_cooldown_minutes: 0,
            add_rate_limit_minutes: 0,
        }
    }
}

/// Why the config could not be loaded or saved. `path` is the file's path as text.
pub enum ConfigError {
    Read { path: String, source: String },
    Write { path: String, source: String },
    Invalid { path: String, line: usize, column: usize, message: String },
}


impl ConfigError {
    /// The message the error reads as.
    pub open spec fn message_text(&self) -> Seq<char> {
        match self {
            ConfigError::Read { path, source } => "could not read "@ + path@ + ": "@ + source@,
            ConfigError::Write { path, source } => "could not write "@ + path@ + ": "@ + source@,
            ConfigError::Invalid { path, line, column, message } => path@ + " is not valid (line "@
                + decimal(*line as nat) + ", column "@ + decimal(*column as nat) + "): "@ + message@,
        }
    }

    /// The message the error reads as.
    pub fn message(&self) -> (r: String)
        ensures
            r@ == self.message_text(),
    {
        match self {
            ConfigError::Read { path, source } => {
                let mut m = chars_of("could not read ");
                push_str(&mut m, path.as_str());
                push_str(&mut m, ": ");
                push_str(&mut m, source.as_str());
                string_of(m.as_slice())
            },
            ConfigError::Write { path, source } => {
                let mut m = chars_of("could not write ");
                push_str(&mut m, path.as_str());
                push_str(&mut m, ": ");
                push_str(&mut m, source.as_str());
                string_of(m.as_slice())
            },
            ConfigError::Invalid { path, line, column, message } => {
                let mut m = chars_of(path.as_str());
                push_str(&mut m, " is not valid (line ");
                let l = u64_decimal(*line as u64);
                push_all(&mut m, l.as_slice());
                push_str(&mut m, ", column ");
                let c = u64_decimal(*column as u64);
                push_all(&mut m, c.as_slice());
                push_str(&mut m, "): ");
                push_str(&mut m, message.as_str());
                string_of(m.as_slice())
            },
        }
    }
}

impl AppConfig {
    /// What a log shows for the admin password: never the password itself.
    pub fn password_placeholder(&self) -> (r: &'static str)
        ensures
            r@ == (if self.admin_password@.len() == 0 { "<unset>"@ } else { "<redacted>"@ }),
    {
        if self.admin_password.as_str().is_empty() {
            "<unset>"
        } else {
            "<redacted>"
        }
    }
}

} // verus!
