[package]
name = "nntpbench"
version = "0.1.0"
edition = "2021"
publish = false

[dependencies]
arrayvec = "=0.7.8"
memchr = "=2.8.3"
clap = { version = "=4.6.7", features = ["derive"] }
libc = "=0.2.191"
socket2 = { version = "=0.6.5", features = ["all"] }
tokio = { version = "=1.54.1", features = ["io-util", "macros", "net", "rt", "rt-multi-thread", "signal", "sync", "time"] }
