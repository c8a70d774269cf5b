[package]
name = "fan_control"
version = "0.1.0"
edition = "2021"
publish = false

[dependencies]
clap = { version = "*", features = ["derive"] }
nvml-wrapper = "*"
nvml-wrapper-sys = "*"
signal-hook = "*"
sudo2 = "*"
