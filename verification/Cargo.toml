[package]
name = "logmine_rs"
version = "0.1.0"
edition = "2021"
publish = false

[dependencies]
regex = "=1.13.1"
structopt = "0.3"
indicatif = "0.18"
num_cpus = "1"
rayon = "1"
parking_lot = "0.12"
crossbeam-channel = "0.5"
