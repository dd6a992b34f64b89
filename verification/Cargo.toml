[package]
name = "ouinet_metrics"
version = "0.1.0"
edition = "2021"
publish = false

[dependencies]
aes-gcm = "*"
x25519-dalek = { version = "*", features = ["getrandom", "static_secrets"] }
pkcs8 = { version = "*", features = ["alloc", "pem"] }
uuid = { version = "*", features = ["v4"] }
tokio = { version = "*", features = ["fs", "macros", "rt-multi-thread", "sync", "time"] }
log = "*"
env_logger = "*"

[dev-dependencies]
serde_json = "*"
chrono = "*"
rand = "*"
