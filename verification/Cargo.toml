[package]
name = "cdc_chunkers"
version = "0.1.0"
edition = "2021"
publish = false

[dependencies]
clap = { version = "*", features = ["derive"] }
rand = "*"
rand_distr = "*"
sha3 = "*"
