[package]
name = "melsec_mc_mock"
version = "0.1.0"
edition = "2021"
publish = false

[dependencies]
melsec_mc = "*"
serde = { version = "1", features = ["derive"] }
serde_json = "1"
anyhow = "1"
tokio = { version = "1", features = ["full"] }
socket2 = "*"
tracing = "0.1"
tracing-subscriber = "0.3"
clap = { version = "4", features = ["derive"] }
