[package]
name = "signal_apps"
version = "0.1.0"
edition = "2021"
publish = false

[dependencies]
serde_json = "*"
tokio = { version = "*", features = ["full"] }
clap = "*"
futures = "*"
futures-lite = "*"
async-process = "*"
async-std = "*"
async-trait = "*"
signal-hook = "*"
signal-hook-tokio = { version = "*", features = ["futures-v0_3"] }
