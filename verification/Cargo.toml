[package]
name = "perf_testing"
version = "0.1.0"
edition = "2021"
publish = false

[dependencies]
goose = "=0.18.1"
serde_json = "=1.0.154"
tokio = { version = "=1.54.1", features = ["macros", "rt-multi-thread", "signal", "sync", "time"] }
