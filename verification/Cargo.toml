[package]
name = "eqclient"
version = "0.1.0"
edition = "2021"
publish = false

[dependencies]
des = "=0.8.1"
cbc = "=0.1.2"
flate2 = "=1.1.10"
rand = "=0.8.8"
serde = { version = "=1.0.229", features = ["derive"] }
serde_json = "=1.0.154"
tokio = { version = "=1.54.1", features = ["full"] }
futures = "=0.3.34"
warp = "=0.3.7"

[dev-dependencies]
binrw = "0.14"
