[package]
name = "rot"
version = "0.1.0"
edition = "2021"
publish = false

[dependencies]
anyhow = "=1.0.104"
blake3 = "=1.8.7"
cargo_metadata = "=0.23.1"
clap = { version = "=4.6.7", features = ["derive"] }
md-5 = "=0.11.0"
ra_ap_cfg = { version = "=0.0.331", features = ["syntax"] }
ra_ap_syntax = "=0.0.331"
rayon = "=1.12.0"
serde = { version = "=1.0.229", features = ["derive"] }
serde_json = "=1.0.154"
sha1 = "=0.11.0"
sha2 = "=0.11.1"
tabwriter = "=1.4.1"
tempfile = "=3.27.0"
toml = "=1.1.8"
