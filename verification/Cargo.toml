[package]
name = "attested_channel"
version = "0.1.0"
edition = "2021"
publish = false

[dependencies]
aws-nitro-enclaves-cose = "0.5"
chacha20poly1305 = "0.10"
clap = { version = "4", features = ["derive"] }
hex = "0.4"
hyper = { version = "0.14", features = ["client", "http1", "tcp"] }
openssl = "0.10"
sha2 = "0.10"
tokio = { version = "1", features = ["full"] }
x25519-dalek = "2"

[dev-dependencies]
serde_cbor = "0.11"
