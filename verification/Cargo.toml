[package]
name = "moto_ipc"
version = "0.1.0"
edition = "2021"
publish = false

[dependencies]
moto-sys = "=0.3.2"
moto-rt = "=0.17.9"
