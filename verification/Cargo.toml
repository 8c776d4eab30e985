[package]
name = "chaingen"
version = "0.1.0"
edition = "2021"
publish = false

[dependencies]
bigint = "*"
tiny-keccak = "1.5"

[dev-dependencies]
rlp = "*"
