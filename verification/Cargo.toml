[package]
name = "ws_codec"
version = "0.1.0"
edition = "2021"

[dependencies]
sha1 = "*"
base64 = "*"
