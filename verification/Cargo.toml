[package]
name = "querycore"
version = "0.1.0"
edition = "2021"
publish = false

[dependencies]
fixedbitset = "*"
smallvec = "*"
anyhow = "*"
console = "*"
indicatif = "*"
