[package]
name = "orderbook_aggregator"
version = "0.1.0"
edition = "2021"
publish = false

[dependencies]
serde_json = "1"
tokio = { version = "1", features = ["macros", "rt-multi-thread", "sync", "time", "net"] }
tokio-tungstenite = { version = "*", features = ["rustls-tls-webpki-roots"] }
futures-util = "0.3"
futures = "0.3"
reqwest = { version = "*", default-features = false, features = ["rustls-tls"] }
tonic = "*"
prost = "*"
async-stream = "0.3"
tracing = "0.1"
tracing-subscriber = "0.3"
