[package]
name = "peer2package"
version = "0.1.0"
edition = "2021"
publish = false

[dependencies]
clap = { version = "4", features = ["derive"] }
quinn = "0.10"
quinn-proto = "0.10"
rustls = { version = "0.21", features = ["dangerous_configuration"] }
rustls-pemfile = "1"
tokio = { version = "1", features = ["rt-multi-thread", "macros", "sync", "io-util", "net"] }
