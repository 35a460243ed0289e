[package]
name = "vurl"
version = "0.1.0"
edition = "2021"
publish = false

[dependencies]
percent-encoding = "2"
foldhash = "*"
serde = "*"
tokio = { version = "*", default-features = false, features = ["fs"] }
