[package]
name = "twitch_pubsub"
version = "0.1.0"
edition = "2021"
publish = false

[dependencies]
rand = "0.9"
twitch_api = { version = "*", features = ["pubsub"] }
serde_json = "1"
tokio = { version = "1", features = ["sync", "time", "rt", "macros"] }
url = "2"
async-tungstenite = { version = "*", features = ["tokio-runtime"] }
futures = "0.3"
thiserror = "*"
