[package]
name = "offchain_election"
version = "0.1.0"
edition = "2021"
publish = false

[dependencies]
sp-npos-elections = "*"
parity-scale-codec = "=3.7.5"
