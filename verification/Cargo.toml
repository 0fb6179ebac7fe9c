[package]
name = "vanguards-rs"
version = "0.1.0"
edition = "2021"
publish = false

[dependencies]
chrono = "0.4"
clap = { version = "4", features = ["derive", "env"] }
ipnetwork = "0.20"
rand = "0.8"
serde = { version = "1", features = ["derive"] }
serde-pickle = "1"
stem-rs = "*"
thiserror = "1"
tokio = { version = "1", features = ["full"] }
toml = "0.8"
tracing = "0.1"
tracing-subscriber = { version = "0.3", features = ["env-filter"] }
zeroize = "1"
