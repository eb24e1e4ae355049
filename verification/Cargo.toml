[package]
name = "nico_title"
version = "0.1.0"
edition = "2021"
publish = false

[dependencies]
unicode-normalization = "0.1"
serde = { version = "1", features = ["derive"] }
serde_json = "1"
clap = { version = "4", features = ["derive"] }
rand = "0.8"
reqwest = { version = "0.12", default-features = false, features = ["blocking", "json", "rustls-tls"] }
