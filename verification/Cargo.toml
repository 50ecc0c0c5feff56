[package]
name = "event-sorcery"
version = "0.2.0"
edition = "2021"
publish = false

[dependencies]
apalis = "=1.0.0"
apalis-codec = "=1.0.0"
apalis-core = "=1.0.0"
apalis-sqlite = "=1.0.0"
async-trait = "=0.1.92"
cqrs-es = "=0.5.0"
serde = { version = "=1.0.229", features = ["derive"] }
serde_json = "=1.0.154"
sqlx = { version = "=0.9.0", default-features = false, features = ["runtime-tokio", "sqlite"] }
thiserror = "=2.0.21"
tokio = { version = "=1.54.1", features = ["sync", "time", "rt", "macros"] }
tracing = "=0.1.44"
