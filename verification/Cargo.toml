[package]
name = "staticserve"
version = "0.1.0"
edition = "2021"
publish = false

[dependencies]
actix-files = "=0.6.10"
actix-multipart = "=0.6.2"
actix-service = "=2.0.3"
actix-web = { version = "=4.4.1", features = ["rustls-0_20"] }
anyhow = "=1.0.104"
argh = "=0.1.19"
async-compression = { version = "=0.4.51", features = ["futures-io", "zstd"] }
async-tar = { version = "=0.4.2", default-features = false }
bytes = "=1.12.1"
env_logger = "=0.11.11"
futures = "=0.3.34"
log = "=0.4.34"
pin-project-lite = "=0.2.17"
rustls = "=0.20.9"
rustls-pemfile = "=1.0.4"
sanitize-filename = "=0.5.0"
serde = { version = "=1.0.229", features = ["derive"] }
serde_yaml = "=0.9.34"
