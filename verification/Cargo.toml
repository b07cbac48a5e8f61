[package]
name = "genie"
version = "0.1.0"
edition = "2021"
publish = false

[dependencies]
tokio = { version = "1", features = ["rt-multi-thread", "net", "io-util", "process", "sync", "time", "macros"] }
clap = "4"
daemonize = "0.5"
libc = "0.2"
rand = "0.8"
