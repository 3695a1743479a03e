[package]
name = "poa_chain"
version = "0.1.0"
edition = "2021"
publish = false

[dependencies]
ed25519-dalek = "2"
getrandom = "0.3"
postcard = { version = "1", features = ["use-std"] }
serde = { version = "1", features = ["derive"] }
serde-big-array = "0.5"
sha2 = "0.10"
