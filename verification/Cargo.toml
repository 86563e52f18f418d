[package]
name = "mempool_server"
version = "0.1.0"
edition = "2021"
publish = false

[dependencies]
dashmap = "=6.2.1"
crossbeam-skiplist = "=0.1.3"
anyhow = "*"
bitcoincore-rpc = "=0.19.0"
bitcoincore-zmqsequence = { version = "=0.1.0", features = ["check_node"] }
config = "*"
dirs = "*"
hex = "*"
log = "*"
nix = { version = "*", features = ["signal"] }
rayon = "*"
rocket = "*"
serde = { version = "*", features = ["derive"] }
simple_logger = "*"
url = "*"
