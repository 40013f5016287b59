[package]
name = "contracts_extrinsics"
version = "0.1.0"
edition = "2021"
publish = false

[dependencies]

[dev-dependencies]
parity-scale-codec = "3"
