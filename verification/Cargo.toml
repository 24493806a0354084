[package]
name = "jukebox"
version = "0.3.0"
edition = "2021"
publish = false

[dependencies]
chrono = "0.4"
rand = "0.9"
regex = "1"
sha1 = "0.10"
unicode-normalization = "0.1"
rusqlite = { version = "*", features = ["bundled"] }
lofty = "*"
serde = { version = "1", features = ["derive"] }
serde_json = "1"
dirs = "*"
rayon = "1"
thiserror = "*"
tracing = "*"
symphonia = { version = "*", features = ["all"] }
cpal = "*"
opus = "*"
rubato = "*"
rtrb = "*"
