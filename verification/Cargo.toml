[package]
name = "khora_node"
version = "0.1.0"
edition = "2021"
publish = false

[dependencies]
bincode = "=1.3.3"
clap = "2.33"
crossbeam = "0.8"
curve25519-dalek = { version = "=3.2.1", features = ["serde"] }
fibers = "0.1"
futures = "0.1"
gip = "0.7"
local-ip-address = "0.4"
local_ipaddress = "0.1"
plumcast = "0.1"
rand = "=0.8.8"
rayon = "1"
serde = { version = "1", features = ["derive"] }
sha3 = "=0.9.1"
sloggers = "2"
trackable = "1"
