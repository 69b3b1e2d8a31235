[package]
name = "rustgovernor"
version = "0.1.0"
edition = "2021"
publish = false

[dependencies]
anyhow = "1"
clap = { version = "4", features = ["derive"] }
single-instance = "0.3"
sysinfo = "*"
