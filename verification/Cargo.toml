[package]
name = "xor"
version = "1.3.0"
edition = "2021"
publish = false

[dependencies]
clap = "=2.34.0"
xor-utils = "*"
