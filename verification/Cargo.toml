[package]
name = "ytmusic_dl"
version = "1.0.0"
edition = "2021"
publish = false

[dependencies]
anyhow = "=1.0.104"
bytes = "=1.12.1"
indicatif = "=0.17.11"
reqwest = { version = "=0.12.28", default-features = false, features = ["rustls-tls", "json"] }
rfd = "=0.15.4"
serde = { version = "=1.0.229", features = ["derive"] }
serde_json = "=1.0.154"
thirtyfour = "=0.35.0"
tokio = { version = "=1.54.1", features = ["full"] }
zip = { version = "=2.6.1", default-features = false, features = ["deflate"] }
