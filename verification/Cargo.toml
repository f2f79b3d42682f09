[package]
name = "can-receiver"
version = "0.1.0"
edition = "2021"
publish = false

[dependencies]
can-dbc = "*"
color-eyre = "*"
embedded-can = "*"
futures-util = "*"
log = "*"
serde = { version = "1", features = ["derive"] }
serde_json = "1"
simplelog = "*"
socketcan = { version = "*", features = ["tokio"] }
time = { version = "0.3", features = ["formatting", "parsing", "local-offset", "serde", "macros"] }
tokio = { version = "1", features = ["full"] }
tokio-tungstenite = "*"
