[package]
name = "bitlens"
version = "0.1.0"
edition = "2021"
publish = false

[dependencies]
bytes = "=1.12.1"
sha2 = "=0.10.9"
hex = "=0.4.3"
bs58 = { version = "=0.5.1", features = ["check"] }
bech32 = "=0.11.1"
primitive-types = "=0.13.1"
tokio = { version = "=1.54.1", features = ["io-util", "net", "rt", "macros", "time", "sync"] }
anyhow = "=1.0.104"
serde = { version = "=1.0.229", features = ["derive"] }
serde_json = "=1.0.154"
rand = "0.9"
regex = "1"
