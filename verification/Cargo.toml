[package]
name = "inquest"
version = "0.1.0"
edition = "2021"
publish = false

[dependencies]
askama = "=0.16.1"
axum = "=0.7.9"
chrono = "=0.4.45"
futures = "=0.3.34"
glob = "=0.3.4"
indicatif = "=0.18.6"
num_cpus = "=1.17.0"
quick-junit = "=0.8.0"
regex = "=1.13.1"
serde = { version = "=1.0.229", features = ["derive"] }
serde_ini = "=0.2.0"
serde_json = "=1.0.154"
tempfile = "=3.27.0"
tokio = { version = "=1.54.1", features = ["full"] }
tokio-stream = { version = "=0.1.19", features = ["sync"] }
toml = { version = "=1.1.8", features = ["preserve_order"] }
tracing = "=0.1.44"
