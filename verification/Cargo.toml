[package]
name = "orderbook_aggregator"
version = "0.1.0"
edition = "2021"
publish = false

[dependencies]
fxhash = "0.2"
url = "2"
tokio = { version = "1", features = ["full"] }
tokio-stream = "0.1"
tokio-tungstenite = "0.20"
futures = "0.3"
futures-util = "0.3"
serde = { version = "1", features = ["derive"] }
serde_json = "1"
async-trait = "0.1"
tracing = "0.1"
tracing-subscriber = "0.3"
clap = { version = "4", features = ["derive"] }
envconfig = "0.10"
crossterm = "0.25"
tui = "0.19"
tonic = "0.8"
prost = "0.11"
