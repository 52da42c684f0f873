[package]
name = "stream_vis"
version = "0.1.0"
edition = "2021"
publish = false

[dependencies]
rand = "0.8"
crossbeam-channel = "0.5"
tokio = { version = "1", features = ["rt", "rt-multi-thread", "time", "macros"] }
futures-util = "0.3"
log = "0.4"
env_logger = "0.10"
argh = "0.1"
