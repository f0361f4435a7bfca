[package]
name = "meal_planner"
version = "0.1.0"
edition = "2021"
publish = false

[dependencies]
uuid = { version = "=1.27.0", features = ["v4", "serde"] }
serde = { version = "=1.0.229", features = ["derive"] }
serde_json = "=1.0.151"
chrono = { version = "=0.4.45", features = ["serde"] }
tokio = { version = "=1.53.2", features = ["rt-multi-thread", "macros", "sync", "time", "net"] }
reqwest = { version = "=0.13.5", default-features = false, features = ["json"] }
async-tungstenite = { version = "=0.35.0", features = ["tokio-runtime"] }
futures = "=0.3.34"
log = "=0.4.34"
env_logger = "=0.11.11"
