[package]
name = "easos_kernel"
version = "0.1.0"
edition = "2021"
publish = false

[dependencies]
serde = { version = "1", features = ["derive"] }
serde_json = "1"
semver = { version = "1", features = ["serde"] }
tokio = { version = "1", features = ["process", "net", "io-util", "signal", "rt-multi-thread", "macros", "time", "fs"] }
libc = "0.2"
clap = { version = "4", features = ["derive", "env"] }
tracing = "0.1"
tracing-subscriber = { version = "0.3", features = ["env-filter"] }
