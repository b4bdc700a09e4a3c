[package]
name = "vm_glitch"
version = "0.1.0"
edition = "2021"
publish = false

[dependencies]
rand = "*"
dasp = { version = "*", features = ["ring_buffer"] }
numquant = "*"
crossbeam-channel = "*"
triple_buffer = "*"
