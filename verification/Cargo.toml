[package]
name = "event_matcher"
version = "0.1.0"
edition = "2021"
publish = false

[dependencies]
clap = { version = "=4.6.7", features = ["derive"] }
serde_json = { version = "=1.0.154", features = ["preserve_order"] }
stellar-xdr = { version = "=23.0.0", features = ["curr", "serde"] }
