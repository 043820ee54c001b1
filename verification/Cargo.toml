[package]
name = "caldir_provider_proton"
version = "0.1.0"
edition = "2021"
publish = false

[dependencies]
anyhow = "=1.0.104"
base64 = "=0.22.1"
caldir-core = "=0.17.4"
chrono = "=0.4.45"
chrono-tz = "=0.10.4"
proton-crypto = { version = "=0.14.1", default-features = false, features = ["rustpgp"] }
proton-crypto-account = { version = "=0.20.1", default-features = false, features = ["rustpgp"] }
proton-srp = "=0.8.4"
reqwest = { version = "=0.12.28", default-features = false, features = ["json", "rustls-tls"] }
serde = { version = "=1.0.229", features = ["derive"] }
serde_json = "=1.0.154"
tokio = { version = "=1.54.1", features = ["rt-multi-thread", "macros", "time"] }
toml = "=1.1.8"

[dev-dependencies]
tempfile = "=3.27.0"
