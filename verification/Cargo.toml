[package]
name = "dwitch"
version = "0.1.0"
edition = "2021"
publish = false

[dependencies]
nix = { version = "*", features = ["fs", "mount", "sched", "process", "dir"] }
tokio = { version = "*", features = ["rt-multi-thread", "net", "sync", "time", "io-util", "macros", "fs"] }
clap = { version = "*", features = ["derive"] }
serde = { version = "*", features = ["derive"] }
toml = "*"
bincode = "1"
tappers = { version = "*", features = ["tokio"] }
