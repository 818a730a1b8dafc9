[package]
name = "mimicwx"
version = "0.6.0"
edition = "2021"
publish = false

[dependencies]
anyhow = "=1.0.104"
axum = { version = "=0.8.9", features = ["ws"] }
base64 = "=0.22.1"
fanotify-rs = "=0.3.1"
md5 = "=0.7.0"
percent-encoding = "=2.3.2"
quick-xml = "=0.37.5"
rusqlite = { version = "=0.41.1", features = ["bundled-sqlcipher-vendored-openssl"] }
serde = { version = "=1.0.229", features = ["derive"] }
serde_json = "=1.0.154"
tokio = { version = "=1.54.1", features = ["full"] }
tokio-util = { version = "=0.7.20", features = ["io"] }
toml = "=0.8.23"
tower-http = { version = "=0.6.11", features = ["cors"] }
tracing = "=0.1.44"
tracing-subscriber = { version = "=0.3.23", features = ["env-filter"] }
x11rb = { version = "=0.13.2", features = ["xtest"] }
zbus = { version = "5", default-features = false, features = ["tokio"] }
zstd = "=0.13.4"
