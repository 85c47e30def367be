[package]
name = "fml"
version = "1.0.0"
edition = "2021"
publish = false

[dependencies]
serde_json = "=1.0.151"
serde = { version = "=1.0.229", features = ["derive"] }
octocrab = "=0.44.1"
tokio = { version = "=1.53.2", features = ["full"] }
reqwest = { version = "=0.12.28", default-features = false, features = ["rustls-tls", "json"] }
tempfile = "=3.27.0"
zip = { version = "=8.6.0", default-features = false, features = ["deflate"] }
jsonwebtoken = "=9.3.1"
secrecy = "=0.10.3"
