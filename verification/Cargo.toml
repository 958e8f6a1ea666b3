[package]
name = "auth_kademlia"
version = "0.1.0"
edition = "2021"
publish = false

[dependencies]
async-trait = "0.1"
base64 = "0.22"
bincode = "1.3"
dashmap = "6"
ed25519-dalek = { version = "2", features = ["rand_core"] }
env_logger = "0.11"
futures = "0.3"
hex = "0.4"
log = "0.4"
moka = { version = "0.12", features = ["sync"] }
pqcrypto-dilithium = "0.5"
pqcrypto-kyber = "0.8"
pqcrypto-traits = "0.3"
rand = "0.8"
rsa = { version = "0.9", features = ["sha2"] }
serde = { version = "1", features = ["derive"] }
serde_json = "1"
sha1 = "0.10"
sha2 = { version = "0.10", features = ["oid"] }
thiserror = "1"
tokio = { version = "1", features = ["full"] }
uuid = { version = "1", features = ["v4"] }
