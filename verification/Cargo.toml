[package]
name = "vikeypass"
version = "0.1.0"
edition = "2021"
publish = false

[dependencies]
magic-crypt = "3"
keyring = "*"
arboard = { version = "*", default-features = false }

[dev-dependencies]
serde_json = "*"
