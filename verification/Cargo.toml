[package]
name = "llcap_server"
version = "0.1.0"
edition = "2021"
publish = false

[dependencies]
anyhow = "1"
clap = { version = "4", features = ["derive"] }
libc = "0.2"
num-traits = "0.2"
tokio = { version = "1", features = ["full"] }
