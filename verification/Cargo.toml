[package]
name = "snops_core"
version = "0.1.0"
edition = "2021"
publish = false

[dependencies]
bimap = { version = "=0.6.3", default-features = false, features = ["std"] }
chrono = { version = "=0.4.45", default-features = false, features = ["clock", "std"] }
futures-util = { version = "=0.3.34", features = ["sink"] }
http = "=1.5.0"
reqwest = { version = "0.12", default-features = false }
tokio = { version = "=1.54.1", features = ["macros", "rt-multi-thread", "sync", "time"] }
tokio-tungstenite = "=0.30.0"
tracing = "=0.1.44"
