[package]
name = "coulisse"
version = "0.1.0"
edition = "2021"
publish = false

[dependencies]
aes-gcm = "=0.10.3"
askama = "=0.16.1"
async-stream = "=0.3.6"
axum = "=0.8.9"
base64 = "=0.22.1"
eventsource-stream = "=0.2.3"
futures = "=0.3.34"
futures-util = "=0.3.34"
jsonschema = { version = "=0.60.2", default-features = false }
moka = { version = "=0.12.16", features = ["future"] }
percent-encoding = "=2.3.2"
rand = "=0.9.5"
reqwest = { version = "=0.12.28", default-features = false, features = ["json", "stream"] }
rig-core = { version = "=0.40.0", features = ["rmcp"] }
rmcp = { version = "=1.8.0", features = ["client", "transport-child-process", "transport-streamable-http-client-reqwest"] }
schemars = "=1.2.3"
serde = { version = "=1.0.229", features = ["derive"] }
serde_json = { version = "=1.0.154", features = ["raw_value"] }
serde_yaml = "=0.9.34"
sha2 = "=0.10.9"
sqlx = { version = "=0.8.6", default-features = false, features = ["runtime-tokio", "sqlite"] }
thiserror = "=2.0.21"
tokio = { version = "=1.54.1", features = ["full"] }
tracing = "=0.1.44"
uuid = { version = "=1.29.0", features = ["v4", "v5"] }
