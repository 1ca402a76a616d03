[package]
name = "thruster-rate-limit"
version = "0.1.0"
edition = "2021"
publish = false

[dependencies]
async-trait = "0.1"
redis = { version = "*", default-features = false, features = ["aio", "tokio-comp", "connection-manager"] }
thruster = { version = "*", features = ["hyper_server"] }
tokio = { version = "1", features = ["sync"] }
