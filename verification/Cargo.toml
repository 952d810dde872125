[package]
name = "standardoc_core"
version = "0.1.0"
edition = "2021"
publish = false

[dependencies]
blake3 = "*"
strsim = "*"
rusqlite = { version = "*", features = ["bundled"] }
walkdir = "*"
ignore = "*"
notify = "*"
notify-debouncer-full = "*"
serde = { version = "*", features = ["derive"] }
serde_json = "*"
thiserror = "*"
rayon = "*"
tokio = { version = "*", features = ["sync"] }
standarbuild-detect = "*"

[dev-dependencies]
tempfile = "*"
