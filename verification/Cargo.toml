[package]
name = "optimized_scheduling"
version = "0.1.0"
edition = "2021"
publish = false

[dependencies]
mpi = "*"
rand = "*"
