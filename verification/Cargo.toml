[package]
name = "mm_installer"
version = "0.1.0"
edition = "2021"
publish = false

[dependencies]
sha1 = "*"
serde = { version = "*", features = ["derive"] }
serde_json = "*"
serde_yaml = "*"
reqwest = { version = "*", default-features = false, features = ["blocking", "rustls-tls"] }
chrono = { version = "*", features = ["serde"] }
uuid = { version = "*", features = ["v4"] }
ferinth = "*"
