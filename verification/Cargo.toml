[package]
name = "codex_history_repair"
version = "0.1.0"
edition = "2021"
publish = false

[dependencies]
serde = { version = "1", features = ["derive"] }
serde_json = "1"
sha2 = "0.10"
toml_edit = "0.22"
walkdir = "2"
dirs = "5"
chrono = "0.4"
rusqlite = { version = "0.32", features = ["bundled", "backup"] }
sysinfo = "0.33"
clap = { version = "4", features = ["derive"] }
anyhow = "1"
thiserror = "1"
