[package]
name = "serde_numpy"
version = "0.1.0"
edition = "2021"
publish = false

[dependencies]
serde = "*"
serde_json = "*"
rmp-serde = "*"
num-traits = "*"
ndarray = "*"
zune-jpeg = "*"
zune-png = "*"
