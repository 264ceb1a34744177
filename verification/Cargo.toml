[package]
name = "webapp_auth"
version = "0.1.0"
edition = "2021"
publish = false

[dependencies]
ring = "*"
serde_json = "*"
serde-querystring = "*"
axum = "*"
tower-layer = "*"
tower-service = "*"
thiserror = "*"
tracing = "*"

[dev-dependencies]
hex = "*"
