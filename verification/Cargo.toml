[package]
name = "larql_cache"
version = "0.1.0"
edition = "2021"
publish = false

[dependencies]
clap = { version = "4", features = ["derive"] }
hf-hub = { version = "0.5", default-features = false, features = ["ureq"] }
reqwest = { version = "0.12", default-features = false, features = ["blocking", "json"] }
serde_json = "1"
