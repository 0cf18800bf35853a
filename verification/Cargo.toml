[package]
name = "loom_core"
version = "0.1.0"
edition = "2021"
publish = false

[dependencies]
indexmap = { version = "=2.14.2", features = ["serde"] }
petgraph = "=0.6.5"
regex = "=1.13.1"
semver = "=1.0.28"
sha2 = "=0.10.9"
serde = { version = "=1.0.229", features = ["derive"] }
serde_yaml = "=0.9.34"
serde_json = "=1.0.154"
toml = "=0.8.23"
clap = { version = "=4.6.7", features = ["derive"] }
clap_complete = "=4.6.11"
flate2 = "=1.1.10"
tar = "=0.4.46"
tempfile = "=3.27.0"
reqwest = { version = "=0.12.28", default-features = false, features = ["blocking", "rustls-tls"] }
