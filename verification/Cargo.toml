[package]
name = "mediator"
version = "0.1.0"
edition = "2021"
publish = false

[dependencies]
anyhow = "*"
async-trait = "*"
chrono = "=0.4.45"
serde = { version = "*", features = ["derive"] }
tokio = { version = "=1.53.2", features = ["full"] }
tracing = "*"
tracing-subscriber = "*"
uuid = { version = "=1.27.0", features = ["v4"] }
warp = { version = "=0.4.3", features = ["server"] }
