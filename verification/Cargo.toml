[package]
name = "decefi"
version = "0.1.0"
edition = "2021"
publish = false

[dependencies]
bincode = "1"
serde = { version = "1", features = ["derive"] }
thiserror = "1"
solana-sdk = { version = "=1.3.0", default-features = false, features = ["program"] }

[dev-dependencies]
byteorder = "1"
