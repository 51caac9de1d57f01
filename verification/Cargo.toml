[package]
name = "pincers"
version = "0.1.0"
edition = "2021"
publish = false

[dependencies]
anyhow = "1"
bounded-integer = { version = "0.5", features = ["types"] }
clap = { version = "4", features = ["derive"] }
fs2 = "0.4"
humanize-bytes = "*"
itertools = "*"
mediatype = "*"
serde = { version = "1", features = ["derive"] }
spdlog-rs = "*"
tokio = { version = "1", features = ["net", "rt", "macros", "signal", "sync"] }
tokio-unix-ipc = { version = "*", features = ["serde"] }
tokio-util = "*"
