[package]
name = "trust_atom"
version = "0.1.0"
edition = "2021"
publish = false

[dependencies]
rust_decimal = "=1.43.0"
holo_hash = "=0.1.6"
hdk = "=0.1.6"
hdi = "=0.2.6"
rmp = "=0.8.11"
serde = "=1.0.166"
holochain_serialized_bytes = "=0.0.51"
