[package]
name = "http_conn"
version = "0.1.0"
edition = "2021"
publish = false

[dependencies]
httparse = "1"
bytes = "1"
http = "1"
