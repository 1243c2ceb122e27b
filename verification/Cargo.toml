[package]
name = "ai-guardrails"
version = "0.1.0"
edition = "2021"
publish = false

[dependencies]
async-trait = "=0.1.92"
bytes = "=1.12.1"
praxis-proxy-core = { version = "=0.7.5", default-features = false }
praxis-proxy-filter = { version = "=0.7.5", default-features = false }
serde = { version = "=1.0.229", features = ["derive"] }
serde_json = "=1.0.154"
tokio = { version = "=1.53.3", features = ["rt-multi-thread"] }
tracing = "=0.1.44"
yaml_serde = "=0.10.7"
