[package]
name = "above_me"
version = "0.1.0"
edition = "2021"
publish = false

[dependencies]
axum = "0.8"
config = { version = "0.15", default-features = false, features = ["json"] }
env_logger = "0.11"
log = "0.4"
regex = "1"
reqwest = { version = "0.12", default-features = false, features = ["rustls-tls"] }
serde = { version = "1", features = ["derive"] }
tokio = { version = "1", features = ["full"] }
