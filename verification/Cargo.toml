[package]
name = "file_serve"
version = "0.1.0"
edition = "2021"
publish = false

[dependencies]
axum = "*"
base64 = "*"
chrono = "*"
clap = "*"
get_if_addrs = "*"
log = "*"
log4rs = "*"
mime_guess = "*"
percent-encoding = "*"
qrcode = "*"
tokio = { version = "*", features = ["rt-multi-thread", "net", "fs", "io-util", "macros"] }
tokio-util = { version = "*", features = ["io"] }
