[package]
name = "annoying_journal"
version = "0.1.0"
edition = "2021"
publish = false

[dependencies]
chrono = "*"
fltk = "*"
tokio = { version = "*", features = ["rt-multi-thread", "macros", "time", "fs", "io-util"] }

[dev-dependencies]
serde_json = "*"
