[package]
name = "mesh-gateway"
version = "0.1.0"
edition = "2021"
publish = false

[dependencies]
anyhow = "1"
axum = "0.6"
axum-server = { version = "0.5", features = ["tls-rustls"] }
clap = { version = "4", features = ["derive"] }
rcgen = "0.11"
reqwest = { version = "0.11", default-features = false, features = ["json", "rustls-tls"] }
rustls = "0.21"
rustls-pemfile = "1"
serde = { version = "1", features = ["derive"] }
time = { version = "0.3", features = ["formatting", "parsing"] }
tokio = { version = "1", features = ["full"] }
toml = "0.8"
tracing = "0.1"
tracing-subscriber = { version = "0.3", features = ["env-filter"] }
