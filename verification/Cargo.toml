[package]
name = "sysunit"
version = "0.1.0"
edition = "2021"
publish = false

[dependencies]
sha1 = "0.10"
rand = "0.8"
anyhow = "1"
async-std = "1"
async-process = "2"
futures = "0.3"
clap = "4"
colored = "2"
tracing = "0.1"
tracing-subscriber = { version = "0.3", features = ["env-filter"] }
tracing-tree = "*"
