[package]
name = "genesis"
version = "0.1.0"
edition = "2021"
publish = false

[dependencies]
rand = "0.8"
triple_accel = "0.4"
indicatif = "0.15"
structopt = "0.3"
