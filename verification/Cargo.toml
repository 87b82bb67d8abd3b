[package]
name = "kusanagi_kernel"
version = "0.1.0"
edition = "2021"
publish = false

[dependencies]
blake3 = "1"
ed25519-dalek = "2"
subtle = "2"
zeroize = "1"
getrandom = "0.3"
clap = { version = "4", features = ["derive"] }
serde = { version = "1", features = ["derive"] }
serde_json = "1"
thiserror = "2"
