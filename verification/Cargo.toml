[package]
name = "taquba"
version = "0.1.0"
edition = "2021"
publish = false

[dependencies]
async-trait = "=0.1.92"
bytes = "=1.12.1"
futures-core = "=0.3.34"
futures-util = "=0.3.34"
rmp-serde = "=1.3.1"
serde = { version = "=1.0.229", features = ["derive"] }
slatedb = "=0.18.0"
tokio = { version = "=1.54.1", features = ["rt", "sync", "time", "macros"] }
tokio-util = "=0.7.20"
tracing = "=0.1.44"
ulid = "=1.2.1"
