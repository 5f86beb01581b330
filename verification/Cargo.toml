[package]
name = "blightmud"
version = "0.1.0"
edition = "2021"
publish = false

[dependencies]
anyhow = "=1.0.104"
libtelnet-rs = "=1.1.2"
regex = "=1.13.1"
rlua = "=0.17.1"
