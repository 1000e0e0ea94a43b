[package]
name = "mouser"
version = "0.1.0"
edition = "2021"
publish = false

[dependencies]
feed-rs = "2"
url = "2"
sha2 = "0.10"
reqwest = { version = "0.12", default-features = false, features = ["blocking", "rustls-tls"] }
rusqlite = { version = "0.32", features = ["bundled"] }
serde = { version = "1", features = ["derive"] }
serde_json = "1"
