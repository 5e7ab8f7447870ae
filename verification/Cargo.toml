[package]
name = "bls_blueprint"
version = "0.1.0"
edition = "2021"
publish = false

[dependencies]
sha2 = "=0.10.9"
snowbridge-milagro-bls = "=1.5.4"
blstrs_plus = "=0.9.0"
rand = "=0.10.3"
serde = { version = "=1.0.229", features = ["derive"] }
serde_json = "=1.0.151"

[dev-dependencies]
hex = "=0.4.3"
