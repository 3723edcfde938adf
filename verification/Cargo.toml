[package]
name = "httprouter"
version = "0.1.0"
edition = "2021"
publish = false

[dependencies]
matchit = "0.4"
hyper = { version = "0.14", features = ["server", "http1", "tcp"] }
futures-util = "0.3"
