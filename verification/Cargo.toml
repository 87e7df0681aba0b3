[package]
name = "whatsapp_rs"
version = "0.1.0"
edition = "2021"
publish = false

[dependencies]
aes-gcm = "=0.9.4"
rust-crypto = "=0.2.36"
x25519-dalek = "=1.1.1"
ed25519-dalek = "=1.0.1"
rand = "=0.8.8"
rand_core = { version = "=0.5.1", features = ["getrandom"] }
base64 = "=0.13.1"
miniz_oxide = "=0.7.4"
md5 = "=0.7.0"
