[package]
name = "mget"
version = "0.1.0"
edition = "2021"
publish = false

[dependencies]
rand = "0.8"
smoltcp = "0.8"
url = "2"
clap = "3"
