[package]
name = "libp2p_behaviours"
version = "0.1.0"
edition = "2021"
publish = false

[dependencies]
either = "1"
fnv = "1"
futures-timer = "3"
libp2p-core = "0.43"
libp2p-identity = { version = "0.2", features = ["peerid", "rand"] }
libp2p-swarm = "0.47"
rand_core = { version = "0.6", features = ["getrandom"] }
sha2 = "0.10"
thiserror = "2"
tracing = "0.1"
web-time = "1"
