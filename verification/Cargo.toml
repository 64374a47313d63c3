[package]
name = "flax"
version = "0.1.0"
edition = "2021"
publish = false

[dependencies]
axum = "0.8"
http = "1"
hyper = { version = "1", features = ["server", "http1", "http2"] }
hyper-util = { version = "0.1", features = ["server", "server-auto", "http1", "http2", "tokio"] }
libc = "0.2"
rustls = "0.23"
rustls-pemfile = "2"
tokio = { version = "1", features = ["fs", "io-util", "macros", "net", "rt-multi-thread", "sync", "time"] }
tokio-rustls = "0.26"
tower-http = { version = "0.6", features = ["fs", "set-header"] }
tower-service = "0.3"
