[package]
name = "zyrkom"
version = "0.1.0"
edition = "2021"
publish = false

[dependencies]
allocator-api2 = "0.2"
bincode = "=1.3.3"
blake2 = "=0.10.6"
clap = { version = "=4.6.7", features = ["derive"] }
fnv = "=1.0.7"
hashbrown = "=0.17.1"
hex = "=0.4.3"
indexmap = "=2.14.2"
serde = { version = "=1.0.229", features = ["derive"] }
sha2 = "=0.10.9"
starknet-crypto = "=0.6.2"
starknet-ff = "=0.3.7"
thiserror = "=1.0.69"

[dev-dependencies]
rand = "=0.8.8"
