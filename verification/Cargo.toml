[package]
name = "brb_node_snfs"
version = "0.1.0"
edition = "2021"
publish = false

[dependencies]
bincode = "1.3"
brb = "=1.0.10"
brb_dt_tree = "=1.1.4"
# Named for its version alone: `brb` is written against this one and does not compile with
# the newer ones that its own requirement lets in.
brb_membership = "=1.0.10"
cmdr = "=0.3.12"
crdt_tree = "=0.0.12"
env_logger = "0.8"
fuse = "0.3"
futures = "0.3"
log = "0.4"
openat = "0.1"
qp2p = "=0.11.11"
serde = { version = "1", features = ["derive"] }
structopt = "0.3"
tokio = { version = "1", features = ["full"] }
