[package]
name = "trm_omega"
version = "10.2.0"
edition = "2021"
publish = false

[dependencies]
anyhow = "1"
bytemuck = "1"
byteorder = "1"
candle-core = "0.9"
candle-nn = "0.9"
clap = { version = "4", features = ["derive"] }
crossbeam-channel = "0.5"
env_logger = "0.11"
log = "0.4"
rand = "0.8"
serde = { version = "1", features = ["derive"] }
serde_json = "1"
