[package]
name = "blockfetch"
version = "0.1.0"
edition = "2021"
publish = false

[dependencies]
base64 = "=0.9.3"
bytes = "=0.4.12"
error-chain = "=0.12.4"
futures = "=0.1.31"
http = "=0.1.21"
hyper = "=0.12.36"
hyper-rustls = "=0.17.1"
percent-encoding = "=1.0.1"
terminal_size = "=0.1.17"
tokio = "=0.1.22"
