[package]
name = "patcher"
version = "0.1.0"
edition = "2021"
publish = false

[dependencies]
bincode = "1"
clap = "2"
hex-buffer-serde = "*"
serde = { version = "1", features = ["derive"] }
serde_json = "1"
snafu = "*"
structopt = "0.3"
