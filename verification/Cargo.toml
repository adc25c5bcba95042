[package]
name = "replay_store"
version = "0.1.0"
edition = "2021"
publish = false

[dependencies]
rand = "=0.10.3"
chrono = "=0.4.45"
ndarray = "=0.17.2"
tensorboard-rs = "=0.5.9"
pyo3 = "0.20"
