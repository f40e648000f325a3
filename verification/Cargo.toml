[package]
name = "tsk"
version = "0.1.0"
edition = "2021"
publish = false

[dependencies]
chrono = { version = "*", features = ["serde"] }
clap = { version = "*", features = ["derive"] }
colored = "*"
dirs = "*"
serde = { version = "*", features = ["derive"] }
serde_json = "*"
