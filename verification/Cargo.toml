[package]
name = "lttp_autotimer"
version = "0.1.0"
edition = "2021"
publish = false

[dependencies]
anyhow = "1"
byteorder = "1"
chrono = "0.4"
clap = "3"
colored = "2"
csv = "1"
flate2 = "1"
reqwest = { version = "0.11", default-features = false, features = ["blocking", "rustls-tls"] }
serde = { version = "1", features = ["derive"] }
serde_json = "1"
termcolor = "1"
websocket = { version = "0.26", default-features = false, features = ["sync"] }
