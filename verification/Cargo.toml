[package]
name = "serve"
version = "0.1.0"
edition = "2021"
publish = false

[dependencies]
anyhow = "1"
arboard = { version = "3", default-features = false }
axum = "0.7"
clap = { version = "4", features = ["derive"] }
glob = "0.3"
hex = "0.4"
local-ip-address = "0.6"
mime_guess = "2"
qr2term = "0.3"
serde = { version = "1", features = ["derive"] }
serde_json = "1"
serde_yaml = "0.9"
sha2 = "0.10"
tokio = { version = "1", features = ["full"] }
toml = "0.8"
tracing-subscriber = { version = "0.3", features = ["env-filter"] }
