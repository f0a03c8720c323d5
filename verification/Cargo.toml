[package]
name = "tis"
version = "0.1.0"
edition = "2021"
publish = false

[dependencies]
axum = { version = "=0.8.9", default-features = false, features = ["http1", "tokio"] }
hyper = { version = "=1.12.0", features = ["http1", "server"] }
hyper-util = { version = "=0.1.21", features = ["tokio"] }
image = { version = "=0.24.9", default-features = false, features = ["bmp", "gif", "jpeg", "png", "tiff", "webp"] }
rustls = { version = "=0.23.46", default-features = false, features = ["ring", "std", "tls12"] }
rustls-pemfile = "=2.2.0"
serde = { version = "=1.0.229", features = ["derive"] }
serde_json = { version = "=1.0.154", features = ["raw_value"] }
tokio = { version = "=1.54.1", features = ["fs", "macros", "net", "rt-multi-thread", "sync", "time"] }
tokio-rustls = { version = "=0.26.6", default-features = false, features = ["ring", "tls12"] }
tokio-util = { version = "=0.7.20", features = ["io"] }
toml = "=0.8.23"
tower = "=0.5.3"
