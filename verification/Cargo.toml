[package]
name = "ha_tui"
version = "0.1.0"
edition = "2021"
publish = false

[dependencies]
indexmap = "2"
anyhow = "1"
crossterm = { version = "0.28", features = ["event-stream"] }
futures-util = "0.3"
ratatui = "0.29"
serde = { version = "1", features = ["derive"] }
serde_json = "1"
tokio = { version = "1", features = ["full"] }
tokio-tungstenite = "0.26"
