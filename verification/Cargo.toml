[package]
name = "fvm_boundary"
version = "0.1.0"
edition = "2021"
publish = false

[dependencies]
cid = "*"

[dev-dependencies]
fvm_shared = "*"
