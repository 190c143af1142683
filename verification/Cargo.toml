[package]
name = "xid"
version = "0.1.0"
edition = "2021"
publish = false

[dependencies]
rust-crypto = "0.2"
crc = "1"
rand = "*"
hostname = "*"
