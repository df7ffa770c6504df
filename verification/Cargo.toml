[package]
name = "spice_connectors"
version = "0.1.0"
edition = "2021"
publish = false

[dependencies]
async-openai = { version = "*", default-features = false }
async-trait = "0.1"
axum = { version = "0.8", default-features = false, features = ["json", "http1", "tokio"] }
datafusion = { version = "52", default-features = false, features = ["sql"] }
futures = "0.3"
http = "1"
moka = { version = "0.12", features = ["future"] }
opentelemetry = { version = "0.31", default-features = false, features = ["metrics"] }
rand = "0.9"
reqwest = { version = "0.12", default-features = false, features = ["json", "rustls-tls-manual-roots-no-provider"] }
secrecy = "0.10"
serde = { version = "1", features = ["derive"] }
serde_json = "1"
tokio = { version = "1", features = ["rt-multi-thread", "sync", "time", "macros"] }
tracing = "0.1"
tracing-futures = "0.2"
