[package]
name = "noscript"
version = "0.1.0"
edition = "2021"
publish = false

[dependencies]
base64 = "*"
serde = { version = "*", features = ["derive"] }
serde_json = "*"
nostr-sdk = "*"
tokio = { version = "*", features = ["macros", "rt-multi-thread", "time"] }
