[package]
name = "liquid_cache"
version = "0.1.0"
edition = "2021"
publish = false

[dependencies]
ahash = "0.8"
anyhow = "1"
arrow = "55"
arrow-flight = "55"
arrow-schema = "55"
axum = "0.8"
bytes = "1"
clap = { version = "4", features = ["derive"] }
datafusion = { version = "48", default-features = false, features = ["parquet"] }
datafusion-proto = { version = "48", default-features = false, features = ["parquet"] }
fastrace = "0.7"
futures = "0.3"
log = "0.4"
object_store = { version = "0.12", features = ["http"] }
parquet = "55"
serde = { version = "1", features = ["derive"] }
serde_json = "1"
tokio = { version = "1", features = ["full"] }
tonic = "0.12"
tower-http = { version = "0.6", features = ["fs"] }
url = "2"
uuid = { version = "1", features = ["v4"] }

[dev-dependencies]
tempfile = "3"
