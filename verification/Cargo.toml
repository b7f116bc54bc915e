[package]
name = "graphpipe"
version = "0.1.0"
edition = "2021"
publish = false

[dependencies]
fjadra = "*"
tokio = { version = "*", features = ["sync", "rt-multi-thread", "time"] }
tokio-stream = { version = "*", features = ["sync"] }
serde = { version = "*", features = ["derive"] }
serde_json = "*"
actix-web = "*"
actix-files = "*"
actix-web-lab = "*"
clap = { version = "*", features = ["derive"] }
env_logger = "*"
fork = "*"
libc = "*"
local-ip-address = "*"
graphviz_parser = "*"
thiserror = "*"
anyhow = "*"
