[package]
name = "beacon_node"
version = "0.1.0"
edition = "2021"
publish = false

[dependencies]
async-trait = "=0.1.92"
base58 = "=0.2.0"
bytes = "=1.12.1"
rand = "=0.8.8"
snarkos-node-tcp = "=4.6.4"
tokio = { version = "=1.54.1", features = ["io-util", "net", "time"] }
tokio-util = { version = "=0.7.20", features = ["codec"] }
tracing = "=0.1.44"
