[package]
name = "ofac_sanctioned_addresses"
version = "0.1.0"
edition = "2021"
publish = false

[dependencies]
roxmltree = "0.20"
serde_json = "1"
zip = { version = "2", default-features = false, features = ["deflate"] }
reqwest = { version = "0.12", default-features = false, features = ["blocking", "rustls-tls"] }
