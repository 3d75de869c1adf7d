[package]
name = "revo"
version = "0.1.0"
edition = "2021"
publish = false

[dependencies]
rand = { version = "0.8", features = ["small_rng"] }
serde_json = "*"
json5 = "*"
image = "*"
imageproc = "*"
lab = "*"
