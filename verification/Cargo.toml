[package]
name = "herdr_chrome"
version = "0.1.0"
edition = "2021"
publish = false

[dependencies]
crossterm = { version = "0.28", default-features = false, features = ["events"] }
jiff = "0.2"
ratatui = { version = "0.29", default-features = false }
schemars = "1"
serde = { version = "1", features = ["derive"] }
serde_json = "1"
tokio = { version = "1", features = ["sync", "rt"] }
tracing = "0.1"
unicode-width = "0.2"
