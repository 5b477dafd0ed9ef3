[package]
name = "vetkd_key_manager"
version = "0.1.0"
edition = "2021"
publish = false

[dependencies]
ic-stable-structures = "*"
candid = "*"
ic-cdk = "*"
serde = "*"

[dev-dependencies]
rand = "*"
