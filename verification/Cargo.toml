[package]
name = "kfn_rs"
version = "0.1.0"
edition = "2021"
publish = false

[dependencies]
rust-ini = "=0.21.3"
rodio = "=0.17.3"
crossbeam = "=0.8.5"
