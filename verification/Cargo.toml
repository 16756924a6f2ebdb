[package]
name = "mo_key_service_core"
version = "0.1.0"
edition = "2021"
publish = false

[dependencies]
aes-gcm = "=0.11.1"
argon2 = "=0.6.0"
ed25519-dalek = "=3.0.0"
getrandom = "=0.4.3"
hkdf = "=0.13.0"
kem = "0.3"
ml-dsa = "=0.1.1"
ml-kem = "=0.3.2"
sha2 = "=0.11.0"
signature = "=3.0.0"
x25519-dalek = { version = "=3.0.0", features = ["static_secrets"] }
zeroize = "=1.9.1"

[dev-dependencies]
hex = "=0.4.3"
