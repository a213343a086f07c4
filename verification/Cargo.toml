[package]
name = "giflibrary"
version = "0.1.0"
edition = "2021"
publish = false

[dependencies]
base64 = "0.22"
hex = "0.4"
image = { version = "0.25", default-features = false, features = ["gif", "jpeg", "png", "webp"] }
serde = { version = "1", features = ["derive"] }
serde_json = "1"
tokio = { version = "1", features = ["full"] }
axum = "0.8"
axum-extra = { version = "0.10", features = ["cookie", "multipart"] }
tower-http = { version = "0.6", features = ["cors", "fs"] }
aws-config = "1"
aws-sdk-s3 = "1"
reqwest = "0.12"
rand = "0.8"
chrono = "0.4"
dotenvy = "0.15"
