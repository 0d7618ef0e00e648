[package]
name = "memoradical"
version = "0.1.0"
edition = "2021"
publish = false

[dependencies]
sha2 = "0.10"
rand = "0.8"
rand_distr = "0.4"
