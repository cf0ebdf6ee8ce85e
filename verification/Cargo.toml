[package]
name = "coinjoin"
version = "0.1.0"
edition = "2021"
publish = false

[dependencies]
bdk = { version = "=0.30.2", default-features = false, features = ["std", "electrum", "keys-bip39"] }
actix-web = "=4.15.0"
serde = { version = "=1.0.229", features = ["derive"] }
serde_json = "=1.0.151"
