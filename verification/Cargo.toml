[package]
name = "portmanager"
version = "0.1.0"
edition = "2021"
publish = false

[dependencies]
anyhow = "1"
clap = { version = "4", features = ["derive"] }
crossterm = "*"
directories = "*"
getrandom = "0.3"
hex = "0.4"
nix = { version = "0.30", features = ["process", "fs", "signal"] }
procfs = "*"
quinn = "0.11"
ratatui = "*"
rcgen = "0.14"
rustls = { version = "0.23", default-features = false, features = ["ring", "std"] }
serde = { version = "1", features = ["derive"] }
serde_json = "1"
sha2 = "0.10"
tokio = { version = "1", features = ["full"] }
toml = "*"
tracing = "0.1"
tracing-subscriber = { version = "0.3", features = ["env-filter"] }
