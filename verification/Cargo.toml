[package]
name = "glass_pumpkin"
version = "0.1.0"
edition = "2021"
publish = false

[dependencies]
num-bigint = { version = "0.4", features = ["rand"] }
num-integer = "0.1"
num-traits = "0.2"
rand = "0.8"
rand_core = { version = "0.6", features = ["getrandom"] }
