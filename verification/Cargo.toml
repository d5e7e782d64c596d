[package]
name = "dnp3_master"
version = "0.1.0"
edition = "2021"
publish = false

[dependencies]
anyhow = "1"
dnp3 = { version = "1", default-features = false }
parking_lot = "0.12"
serde = { version = "1", features = ["derive"] }
tokio = { version = "1", features = ["macros", "rt", "sync", "time"] }
toml = "0.8"
tracing = "0.1"
tracing-subscriber = "0.3"
warp = "0.3"
