[package]
name = "hydra"
version = "0.1.0"
edition = "2021"
publish = false

[dependencies]
bytes = "=1.12.1"
hashbrown = "=0.15.5"
uuid = "=1.29.0"
urlencoding = "=2.1.3"
url = "2"
postcard = { version = "=1.1.3", features = ["alloc"] }
serde = { version = "=1.0.229", features = ["derive"] }
serde_json = "=1.0.154"
tokio = { version = "=1.54.1", features = ["sync", "rt", "macros", "time"] }
futures = "=0.3.34"
procfs = "=0.18.0"
fs-err = "=3.3.2"
anyhow = "=1.0.104"
tracing = "=0.1.44"
thiserror = "=2.0.21"
hyper = { version = "=1.12.0", features = ["http2", "server", "client"] }
http-body-util = "=0.1.5"
hyper-util = { version = "=0.1.21", features = ["tokio"] }
