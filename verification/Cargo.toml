[package]
name = "dkg_transcript"
version = "0.1.0"
edition = "2021"
publish = false

[dependencies]
hbbft = "=0.1.1"
bincode = "=1.3.3"
rand = "=0.6.5"
keccak-hash = "=0.12.0"

[dev-dependencies]
serde_json = "=1.0.151"
