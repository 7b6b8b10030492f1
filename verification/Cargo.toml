[package]
name = "irmaseal_core"
version = "0.1.0"
edition = "2021"
publish = false

[dependencies]
aes = "=0.8.4"
arrayvec = "=0.5.2"
ctr = "=0.9.2"
futures = "0.3"
hmac = "=0.12.1"
ibe = "=0.1.4"
rand = "=0.7.3"
sha3 = "=0.10.9"
subtle = "2"
