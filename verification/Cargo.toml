[package]
name = "omega_daemon"
version = "0.1.0"
edition = "2021"
publish = false

[dependencies]
getrandom = "=0.3.4"
serde = { version = "=1.0.229", features = ["derive"] }
serde_json = "=1.0.154"
tokio = { version = "=1.54.1", features = ["rt-multi-thread", "macros", "sync", "time", "process", "net", "signal", "io-util"] }
tracing = "=0.1.44"
libc = "=0.2.191"
notify = "=8.2.1"
thiserror = "=2.0.21"
