[package]
name = "freeflight"
version = "0.1.0"
edition = "2021"
publish = false

[dependencies]
chrono = { version = "0.4", default-features = false, features = ["std", "clock", "serde"] }
sha2 = "0.10"
quick-xml = "0.36"
serde = { version = "1", features = ["derive"] }
serde_json = "1"
csv = "1"
thiserror = "1"
tempfile = "3"
rusqlite = { version = "0.31", features = ["bundled"] }
pmtiles2 = "*"
reqwest = { version = "0.12", default-features = false, features = ["json", "blocking", "rustls-tls"] }
sqlx = { version = "0.8", default-features = false, features = ["postgres", "runtime-tokio", "chrono", "macros"] }
