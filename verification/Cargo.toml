[package]
name = "croxy"
version = "0.1.0"
edition = "2021"
publish = false

[dependencies]
regex = "=1.13.1"
serde_json = "=1.0.154"
chrono = "=0.4.45"
http = "=1.5.0"
serde = { version = "=1.0.229", features = ["derive"] }
axum = "=0.8.9"
tokio = { version = "=1.54.1", features = ["full"] }
reqwest = { version = "=0.12.28", default-features = false, features = ["json", "stream"] }
futures = "=0.3.34"
bytes = "=1.12.1"
tracing = "=0.1.44"
tracing-subscriber = { version = "=0.3.23", features = ["env-filter"] }
figment = { version = "=0.10.19", features = ["toml", "env"] }
clap = { version = "=4.6.7", features = ["derive"] }
dirs = "=7.0.0"
toml_edit = "=0.25.17"
ratatui = "*"
crossterm = "*"
nix = { version = "*", features = ["signal", "process"] }
