[package]
name = "stream_pacing"
version = "0.1.0"
edition = "2021"
publish = false

[dependencies]
bytes = "1"
rand = "0.9"
thiserror = "2"
tracing = "0.1"
