[package]
name = "bridgerpay_connector"
version = "0.1.0"
edition = "2021"
publish = false

[dependencies]
sha2 = "=0.10.9"
libaes = "=0.7.0"
base64 = "=0.22.1"
ring = "=0.17.14"
serde = { version = "=1.0.229", features = ["derive"] }
serde_json = "=1.0.151"
serde_qs = "=1.1.3"
http = "=1.5.0"
tokio = { version = "=1.53.2", features = ["full"] }
async-trait = "=0.1.92"
error-chain = "=0.12.4"
strum = { version = "=0.28.0", features = ["derive"] }
