[package]
name = "mtproto"
version = "0.1.0"
edition = "2021"
publish = false

[dependencies]
sha1 = "0.10"
crc32fast = "1"
aes = "0.8"
getrandom = "0.2"
