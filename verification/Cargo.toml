[package]
name = "btwire"
version = "0.1.0"
edition = "2021"
publish = false

[dependencies]
sha1 = "*"
reqwest = { version = "*", default-features = false }
tokio = { version = "*", features = ["rt-multi-thread", "macros", "net", "io-util", "time"] }
