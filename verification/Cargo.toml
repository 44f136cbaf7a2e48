[package]
name = "llama_agent"
version = "0.1.0"
edition = "2021"
publish = false

[dependencies]
serde = { version = "=1.0.229", features = ["derive"] }
serde_json = "=1.0.154"
regex = "=1.13.1"
ulid = { version = "=1.2.1", features = ["serde"] }
thiserror = "=1.0.69"
anyhow = "=1.0.104"
clap = { version = "=4.6.7", features = ["derive"] }
tokio = { version = "=1.54.1", features = ["full"] }
async-trait = "=0.1.92"
futures = "=0.3.34"
tracing = "=0.1.44"
tracing-subscriber = "=0.3.23"
uuid = { version = "=1.29.0", features = ["v4"] }
tokio-stream = "=0.1.19"
tokio-util = "=0.7.20"
indicatif = "=0.17.11"
llama-cpp-2 = "*"
polars = { version = "*", default-features = false, features = ["parquet"] }

[dev-dependencies]
tempfile = "=3.27.0"
