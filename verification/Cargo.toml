[package]
name = "noctiforge_worker"
version = "0.1.0"
edition = "2021"
publish = false

[dependencies]
sha2 = "=0.10.9"
libcontainer = { version = "=0.7.0", default-features = false }
tokio = { version = "=1.53.2", default-features = false, features = ["rt", "fs", "time", "sync", "macros", "io-util", "signal"] }
tokio-tar = "=0.3.1"
tokio-stream = "0.1"
tokio-util = "=0.7.19"
anyhow = "=1.0.104"
serde_json = "=1.0.151"
pentacle = "=1.1.0"
