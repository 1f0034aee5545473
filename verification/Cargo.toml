[package]
name = "keyspace"
version = "0.1.0"
edition = "2021"
publish = false

[dependencies]
tiny-keccak = { version = "=2.0.2", features = ["keccak"] }
sha2 = "=0.10.9"
k256 = { version = "=0.13.4", features = ["ecdsa"] }
num-bigint = "=0.4.8"
num-traits = "=0.2.19"
serde = { version = "=1.0.229", features = ["derive"] }
serde_json = "=1.0.151"
hex = "=0.4.3"
gnark-bn254-verifier = "=1.0.2"
