[package]
name = "tokio-stomp"
version = "0.4.0"
edition = "2021"
publish = false

[dependencies]
anyhow = "1"
bytes = "1"
futures = "0.3"
log = "0.4"
tokio = { version = "1", features = ["net", "rt", "time"] }
tokio-util = { version = "0.7", features = ["codec"] }

[dev-dependencies]
nom = "7"
