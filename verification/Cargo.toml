[package]
name = "miden_playground"
version = "0.1.0"
edition = "2021"
publish = false

[dependencies]
serde = { version = "*", features = ["derive"] }
serde_json = "*"
miden-core = "0.19"
miden-assembly = "0.19"
miden-processor = "0.19"
miden-prover = "0.19"
miden-verifier = "0.19"
miden-stdlib = "0.19"
