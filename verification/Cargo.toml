[package]
name = "express"
version = "0.1.0"
edition = "2021"
publish = false

[dependencies]
bytes = "1"
num_cpus = "1"
threadpool = "1"

[dev-dependencies]
rand = "0.8"
