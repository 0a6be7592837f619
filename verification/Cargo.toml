[package]
name = "stockgo"
version = "0.1.0"
edition = "2021"
publish = false

[dependencies]
aes = "=0.8.4"
chrono = "=0.4.45"
csv = "=1.4.0"
ed25519-dalek = { version = "=2.2.0", features = ["rand_core"] }
encoding_rs = "=0.8.44"
hex = "=0.4.3"
rand = "=0.8.8"
regex = "=1.13.1"
rkyv = "=0.8.18"
scraper = "=0.29.0"
serde = { version = "=1.0.229", features = ["derive"] }
serde_json = "=1.0.154"
sha2 = "=0.10.9"
ureq = { version = "2", default-features = false }
