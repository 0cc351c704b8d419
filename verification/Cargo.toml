[package]
name = "prisoners_dilemma"
version = "0.1.0"
edition = "2021"
publish = false

[dependencies]
rand = "0.8"
threadpool = "1.8"
num_cpus = "1.16"
clap = { version = "4", features = ["derive"] }
