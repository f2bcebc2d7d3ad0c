[package]
name = "collector"
version = "0.1.0"
edition = "2021"
publish = false

[dependencies]
hostname = "*"
uuid = { version = "*", features = ["v4"] }
tokio = { version = "*", features = ["rt-multi-thread", "macros", "signal", "sync", "time"] }
tokio-util = "*"
clap = { version = "*", features = ["derive"] }
anyhow = "*"
log = "*"
env_logger = "*"
libc = "*"
toml_edit = "*"
object_store = "*"
parquet = "*"
arrow-array = "*"
arrow-schema = "*"
