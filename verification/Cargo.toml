[package]
name = "hydrozoa_tools"
version = "0.1.0"
edition = "2021"
publish = false

[dependencies]
anyhow = "1"
chrono = "0.4"
clap = { version = "4", features = ["derive"] }
crossterm = "0.28"
figment = { version = "0.10", features = ["json", "env"] }
prost = "0.13"
ratatui = "0.29"
reqwest = { version = "0.12", default-features = false, features = ["json", "blocking", "rustls-tls"] }
rocksdb = { version = "0.23", default-features = false, features = ["bindgen-runtime"] }
serde = { version = "1", features = ["derive"] }
serde_json = "1"
tokio = { version = "1", features = ["rt-multi-thread", "time", "net", "macros"] }
tracing = "0.1"
tracing-subscriber = { version = "0.3", features = ["env-filter"] }
tui-big-text = "0.7"
