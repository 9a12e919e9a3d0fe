[package]
name = "zkwordle"
version = "0.1.0"
edition = "2021"
publish = false

[dependencies]
poseidon-rs = "0.0.10"
ff_ce = "0.11"
rand = "0.8"
tokio = { version = "1", features = ["rt-multi-thread", "macros", "time", "sync"] }
axum = "0.7"
tower-http = { version = "0.5", features = ["cors"] }
serde = { version = "1", features = ["derive"] }
log = "0.4"
env_logger = "0.11"
parking_lot = "0.12"
