[package]
name = "ribir_monitor"
version = "0.1.0"
edition = "2021"
publish = false

[dependencies]
ahash = "0.8"
bincode = "1.3"
crossbeam = "0.8"
crossbeam-channel = "0.5"
crossbeam-epoch = "0.9"
futures-util = "0.3"
serde = { version = "1", features = ["derive"] }
tokio = { version = "1", features = ["net", "rt"] }
tokio-tungstenite = "0.18"
tracing = "0.1"
tracing-core = "0.1"
tracing-subscriber = { version = "0.3", default-features = false, features = ["registry"] }
tungstenite = "0.18"
url = "2"
