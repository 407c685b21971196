[package]
name = "mimicrab"
version = "0.1.0"
edition = "2021"
publish = false

[dependencies]
arc-swap = "=1.9.2"
async-stream = "=0.3.6"
axum = "=0.8.9"
bson = { version = "=3.1.0", features = ["serde"] }
chrono = "=0.4.45"
clap = { version = "=4.6.7", features = ["derive"] }
futures = "=0.3.34"
http-body-util = "=0.1.5"
k8s-openapi = { version = "*", features = ["latest"] }
kube = { version = "*", features = ["runtime", "client"] }
lazy_static = "=1.5.1"
mime_guess = "=2.0.5"
mlua = { version = "=0.12.2", features = ["lua54", "vendored", "serialize"] }
prometheus = "=0.14.0"
rand = "=0.10.3"
reqwest = { version = "=0.13.5", default-features = false }
rustls = "=0.23.45"
serde = { version = "=1.0.229", features = ["derive"] }
serde_json = "=1.0.151"
tokio = { version = "=1.53.2", features = ["rt-multi-thread", "macros", "net", "time", "sync"] }
tower-http = { version = "=0.7.1", features = ["trace"] }
tracing = "=0.1.44"
tracing-subscriber = { version = "=0.3.23", features = ["env-filter"] }
