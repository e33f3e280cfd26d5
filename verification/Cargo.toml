[package]
name = "xclaw"
version = "0.1.0"
edition = "2021"
publish = false

[dependencies]
uuid = { version = "=1.29.0", features = ["v4"] }
chrono = "=0.4.45"
chrono-tz = "=0.10.4"
serde = { version = "=1.0.229", features = ["derive"] }
serde_json = "=1.0.154"
serde_yaml = "=0.9.34"
base64 = "=0.22.1"
anyhow = "=1.0.104"
log = "=0.4.35"
tokio = { version = "=1.54.1", features = ["full"] }
futures = "=0.3.34"
async-trait = "=0.1.92"
async-stream = "=0.3.6"
dotenv = "=0.15.0"
tracing-subscriber = { version = "=0.3.23", features = ["env-filter"] }
reqwest = "=0.12.28"
axum = { version = "=0.8.9", features = ["ws"] }
serenity = "=0.12.5"
rig-core = "=0.38.2"
diesel = { version = "=2.3.14", features = ["sqlite", "r2d2"] }
diesel_migrations = "=2.3.2"
