[package]
name = "arp_watch"
version = "0.1.0"
edition = "2021"
publish = false

[dependencies]
pnet = "*"
tokio = { version = "*", features = ["rt-multi-thread", "macros", "sync", "fs", "io-util", "io-std", "time"] }
