[package]
name = "qtest_socket"
version = "0.1.0"
edition = "2021"
publish = false

[dependencies]
base64 = "*"
tokio = { version = "*", features = ["net", "sync", "rt", "rt-multi-thread", "io-util", "macros", "time"] }
