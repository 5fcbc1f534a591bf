[package]
name = "rua"
version = "0.1.0"
edition = "2021"
publish = false

[dependencies]
queues = "1.1"
rand = "0.8"
termion = "2"
tokio = { version = "1", default-features = false, features = ["rt-multi-thread", "macros", "time"] }
