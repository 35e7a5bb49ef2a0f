[package]
name = "counter_exchange"
version = "0.1.0"
edition = "2021"
publish = false

[dependencies]
anyhow = "*"
bytes = "*"
env_logger = "*"
log = "*"
qp2p = "*"
tokio = { version = "*", features = ["macros", "rt-multi-thread"] }
