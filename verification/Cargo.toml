[package]
name = "cryptix"
version = "0.3.1"
edition = "2021"
publish = false

[dependencies]
base64 = "=0.22.1"
chacha20poly1305 = "=0.10.1"
rand = "=0.8.8"
zeroize = "=1.9.1"
image = { version = "=0.25.10", default-features = false, features = ["png", "jpeg", "webp", "bmp"] }
thiserror = "=1.0.69"
colored = "=2.2.0"
crossterm = "=0.29.0"
indicatif = "=0.18.6"
inquire = "=0.9.4"
