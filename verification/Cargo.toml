[package]
name = "gitingest"
version = "0.1.0"
edition = "2021"
publish = false

[dependencies]
globset = "0.4"
encoding_rs = "0.8"
walkdir = "2"
tokio = { version = "1", features = ["fs", "process", "rt-multi-thread", "macros", "sync"] }
futures = "0.3"
tempfile = "3"
uuid = { version = "1", features = ["v4", "serde"] }
serde = { version = "1", features = ["derive"] }
serde_json = "1"
thiserror = "1"
anyhow = "1"
log = "0.4"
clap = { version = "4", features = ["derive"] }
dotenv = "0.15"
tracing = "0.1"
tracing-subscriber = { version = "0.3", features = ["env-filter"] }
url = "2"
regex = "1"
reqwest = { version = "0.11", default-features = false }
git2 = { version = "0.18", default-features = false }
