[package]
name = "llm_engine"
version = "0.1.0"
edition = "2021"
publish = false

[dependencies]
anyhow = "=1.0.104"
axum = { version = "=0.7.9", default-features = false, features = ["http1", "json", "tokio"] }
candle-core = { version = "=0.8.4", default-features = false }
candle-nn = { version = "=0.8.4", default-features = false }
clap = { version = "=4.6.7", features = ["derive"] }
cubecl = { version = "0.5", default-features = false }
futures-util = "=0.3.34"
half = "=2.7.1"
image = { version = "=0.25.10", default-features = false, features = ["png", "jpeg"] }
libc = "=0.2.191"
memmap2 = "=0.9.12"
minijinja = "=2.24.0"
minijinja-contrib = { version = "=2.24.0", features = ["pycompat"] }
parking_lot = "=0.12.5"
rand = "=0.8.8"
reqwest = { version = "=0.12.28", default-features = false, features = ["json", "stream"] }
safetensors = "=0.4.5"
serde = { version = "=1.0.229", features = ["derive"] }
serde_json = "=1.0.154"
symphonia = { version = "=0.5.5", features = ["mp3", "wav"] }
sysinfo = "=0.29.11"
tokenizers = { version = "=0.23.2", default-features = false, features = ["fancy-regex"] }
tokio = { version = "=1.54.1", features = ["rt-multi-thread", "macros", "net", "io-util", "sync", "time", "signal", "fs"] }
tokio-stream = { version = "=0.1.19", features = ["sync"] }
tower-http = { version = "=0.5.2", features = ["limit"] }
tracing = "=0.1.44"
tracing-subscriber = "=0.3.23"
