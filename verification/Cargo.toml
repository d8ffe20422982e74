[package]
name = "processor"
version = "0.1.0"
edition = "2021"
publish = false

[dependencies]
anyhow = "=1.0.104"
chrono = "=0.4.45"
config = { version = "=0.15.27", default-features = false }
futures = "=0.3.34"
h3o = "=0.11.0"
influxdb = { version = "=0.8.0", features = ["chrono"] }
prost = "=0.14.4"
rdkafka = "=0.39.0"
serde = { version = "=1.0.229", features = ["derive"] }
tokio = { version = "=1.54.1", features = ["macros", "rt-multi-thread"] }
tokio-stream = "=0.1.19"
tracing = "=0.1.44"
tracing-subscriber = "=0.3.23"
