[package]
name = "srt_relay"
version = "0.1.0"
edition = "2021"
publish = false

[dependencies]
anyhow = "*"
bytes = "*"
futures = "*"
srt-tokio = "*"
tokio = { version = "*", features = ["macros", "rt-multi-thread", "sync"] }
tracing = "*"
tracing-subscriber = "*"
