[package]
name = "fmp4_mux"
version = "0.1.0"
edition = "2021"
publish = false

[dependencies]
anyhow = "1"
env-libvpx-sys = "*"
image = { version = "0.24", default-features = false, features = ["png"] }
num_cpus = "1"
