[package]
name = "device_reconcile"
version = "0.1.0"
edition = "2021"
publish = false

[dependencies]
scraper = "*"
reqwest = { version = "*", default-features = false, features = ["blocking", "json", "default-tls"] }
serde = { version = "*", features = ["derive"] }

[dev-dependencies]
csv = "*"
serde_json = "*"
