[package]
name = "narwhal_types"
version = "0.1.0"
edition = "2021"
publish = false

[dependencies]
fastcrypto = "*"
roaring = "*"
base64 = "*"
indexmap = "*"

[dev-dependencies]
rand = "0.8"
