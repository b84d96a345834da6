[package]
name = "epub_reader"
version = "0.1.0"
edition = "2021"
publish = false

[dependencies]
anyhow = "1"
axum = { version = "0.8", features = ["multipart"] }
hex = "0.4"
percent-encoding = "2"
rand = "0.9"
serde = { version = "1", features = ["derive"] }
serde_json = "1"
sha2 = "0.10"
tera = "1"
tokio = { version = "1", features = ["full"] }
walkdir = "2"
