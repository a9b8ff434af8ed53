[package]
name = "ws_codec"
version = "0.1.0"
edition = "2021"
publish = false

[dependencies]
flate2 = "=1.1.10"
rand = "=0.10.3"
simdutf8 = "=0.1.5"
http = "=1.5.0"
sha1 = "*"
base64 = "*"
