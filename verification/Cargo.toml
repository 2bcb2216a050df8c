[package]
name = "minimamemosa"
version = "0.1.0"
edition = "2021"
publish = false

[dependencies]
axum = { version = "0.7", features = ["multipart"] }
tokio = { version = "1", features = ["full"] }
tower-http = { version = "0.5", features = ["fs"] }
serde = { version = "1", features = ["derive"] }
serde_json = "1"
minijinja = "2"
pulldown-cmark = { version = "0.12", default-features = false, features = ["html"] }
chrono = "0.4"
rusqlite = { version = "0.31", features = ["bundled"] }
hmac = "0.12"
sha2 = "0.10"
hex = "0.4"
bcrypt = "0.15"
base64 = "0.22"
captcha = "0.0.9"
