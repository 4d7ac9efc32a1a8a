[package]
name = "nbio"
version = "0.1.0"
edition = "2021"
publish = false

[dependencies]
chrono = "0.4"
crossbeam = "0.7"
futures = "0.1"
httparse = "~1.3"
mio = "0.6"
slab = "0.4"
tokio = { version = "0.2", features = ["io-util", "macros", "rt-threaded", "tcp"] }
tokio-executor = "0.1"
tokio-io = "0.1"
tokio-tcp = "0.1"
tokio-threadpool = "0.1"
