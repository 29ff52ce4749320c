[package]
name = "ballistic_deposition"
version = "0.1.0"
edition = "2021"
publish = false

[dependencies]
configparser = "*"
csv = "1"
itertools = "*"
num = "0.4"
rayon = "1"
