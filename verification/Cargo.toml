[package]
name = "pos_chain"
version = "0.1.0"
edition = "2021"
publish = false

[dependencies]
aes-gcm = "=0.10.3"
argon2 = "=0.5.3"
bigdecimal = "=0.4.11"
clap = { version = "=4.6.7", default-features = false, features = ["std", "derive", "help", "usage", "error-context"] }
futures = "=0.3.34"
hex = "=0.4.3"
libp2p = { version = "=0.56.0", features = ["tokio", "tcp", "noise", "yamux", "quic", "gossipsub", "mdns", "request-response", "json", "macros", "ecdsa"] }
libsecp256k1 = "=0.7.2"
rand = "=0.8.8"
rocksdb = { version = "*", default-features = false }
rpassword = "=7.5.4"
rs_merkle = "=1.5.0"
serde = { version = "=1.0.229", features = ["derive"] }
serde_json = "=1.0.154"
sha2 = "=0.10.9"
tokio = { version = "=1.54.1", features = ["rt-multi-thread", "macros", "sync", "time"] }
