[package]
name = "rhttp"
version = "0.1.0"
edition = "2021"
publish = false

[dependencies]
confy = "0.4"
openssl = "0.10"
serde = "1"
serde_derive = "1"
structopt = "0.3"
