[package]
name = "tord"
version = "0.1.0"
edition = "2021"
publish = false

[dependencies]
serde = { version = "=1.0.229", features = ["derive"] }
serde_json = "=1.0.154"
serde_yaml = "=0.9.34"
clap = { version = "=4.6.7", features = ["derive"] }
tokio = { version = "=1.54.1", features = ["rt", "net", "io-util", "macros", "signal", "time"] }
tokio-util = { version = "=0.7.20", features = ["compat"] }
futures = "=0.3.34"
async-trait = "=0.1.92"
anyhow = "=1.0.104"
tracing = "=0.1.44"
tracing-subscriber = { version = "=0.3.23", features = ["env-filter", "fmt"] }
tor-rtcompat = { version = "=0.47.0", default-features = false, features = ["tokio"] }
