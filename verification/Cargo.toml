[package]
name = "bambu-serve"
version = "0.1.0"
edition = "2021"
publish = false

[dependencies]
anyhow = "=1.0.104"
axum = { version = "=0.8.9", features = ["ws"] }
futures-util = "=0.3.34"
libc = "=0.2.191"
rustls = { version = "=0.23.46", default-features = false, features = ["ring", "std"] }
serde = { version = "=1.0.229", features = ["derive"] }
serde_json = "=1.0.154"
tempfile = "=3.27.0"
tokio = { version = "=1.54.1", features = ["full"] }
tokio-rustls = { version = "=0.26.6", default-features = false, features = ["ring"] }
ureq = { version = "=2.12.1", default-features = false }
zip = { version = "=2.6.1", default-features = false, features = ["deflate"] }
