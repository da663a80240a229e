[package]
name = "modsim"
version = "0.1.0"
edition = "2021"
publish = false

[dependencies]
uuid = { version = "1", features = ["v4", "serde"] }
serde = { version = "1", features = ["derive"] }
serde_json = "1"
half = "2"
thiserror = "2"
anyhow = "1"
tokio = { version = "1", features = ["full"] }
tokio-serial = { version = "5", default-features = false }
tokio-stream = { version = "0.1", features = ["sync"] }
futures-util = "0.3"
async-graphql = "7"
async-graphql-axum = "7"
axum = "*"
parking_lot = "0.12"
tracing = "0.1"
tracing-subscriber = { version = "0.3", features = ["env-filter"] }
dotenvy = "0.15"
directories = "*"
open = "5"
mime_guess = "2"
rust-embed = "8"
nix = { version = "*", features = ["term", "fs"] }
libc = "0.2"
