[package]
name = "p3-fri"
version = "0.1.0"
edition = "2021"
publish = false

[dependencies]
p3-challenger = "*"
p3-commit = "*"
p3-field = "*"
p3-goldilocks = "*"
p3-keccak = "*"
p3-matrix = "*"
p3-merkle-tree = "*"
p3-symmetric = "*"
p3-util = "*"
