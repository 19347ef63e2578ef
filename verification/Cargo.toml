[package]
name = "playlite"
version = "0.1.0"
edition = "2021"
publish = false

[dependencies]
regex = "=1.13.1"
sha2 = "=0.10.9"
url = "=2.5.8"
serde = { version = "=1.0.229", features = ["derive"] }
serde_json = "=1.0.154"
quick-xml = { version = "=0.42.0", features = ["serialize"] }
uuid = { version = "=1.29.1", features = ["v4"] }
chrono = "=0.4.45"
rusqlite = { version = "=0.41.1", features = ["bundled"] }
reqwest = { version = "0.12", default-features = false, features = ["json", "rustls-tls"] }
