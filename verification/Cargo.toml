[package]
name = "veysrs"
version = "0.6.0"
edition = "2021"
publish = false

[dependencies]
base64 = "0.22"
flate2 = "1"
rustls = { version = "0.23", default-features = false, features = ["ring", "std", "tls12"] }
rustls-pemfile = "2"
sha1 = "0.10"
