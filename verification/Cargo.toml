[package]
name = "tinykv"
version = "0.1.0"
edition = "2021"
publish = false

[dependencies]
anyhow = "1"
async-trait = "0.1"
bincode = "1.3"
byteorder = "1"
bytes = "1"
env_logger = "0.10"
futures = "0.3"
heed = "0.11"
ouroboros = "0.18"
parking_lot = "0.12"
prost = "0.12"
rand = "0.8"
serde = { version = "1", features = ["derive"] }
strum = { version = "0.25", features = ["derive"] }
tokio = { version = "1", features = ["full"] }
tonic = "0.10"
