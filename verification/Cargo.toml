[package]
name = "asset_reconciler"
version = "0.1.0"
edition = "2021"
publish = false

[dependencies]
uuid = { version = "=1.27.0", features = ["v4", "serde"] }
serde = { version = "=1.0.229", features = ["derive"] }
log = "=0.4.34"
tokio = { version = "=1.53.2", features = ["rt"] }
walkdir = "=2.5.0"
ignore-files = "=3.0.8"
