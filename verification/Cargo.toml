[package]
name = "rqs_lib"
version = "0.1.0"
edition = "2021"
publish = false

[dependencies]
url = "=2.5.8"
serde = { version = "=1.0.229", features = ["derive"] }
anyhow = "=1.0.104"
tokio = { version = "=1.54.1", features = ["rt", "sync", "io-util", "macros", "time", "net"] }
tokio-util = "=0.7.20"
bytes = "=1.12.1"
uuid = "=1.29.0"
bluer = { version = "=0.17.4", features = ["bluetoothd"] }
log = "=0.4.35"
