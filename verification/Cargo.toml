[package]
name = "skypier_blackhole"
version = "0.1.0"
edition = "2021"
publish = false

[dependencies]
anyhow = "1"
clap = { version = "4", features = ["derive"] }
colored = "2"
futures = "0.3"
hickory-client = "0.24"
hickory-proto = "0.24"
nix = { version = "0.29", features = ["signal"] }
reqwest = { version = "0.12", default-features = false }
serde = { version = "1", features = ["derive"] }
signal-hook = "0.3"
signal-hook-tokio = { version = "0.3", features = ["futures-v0_3"] }
tokio = { version = "1", features = ["rt-multi-thread", "macros", "net", "sync", "time"] }
toml = "0.8"
tracing = "0.1"
tracing-subscriber = { version = "0.3", features = ["env-filter"] }
