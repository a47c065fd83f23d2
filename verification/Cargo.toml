[package]
name = "lwm2m_server_rs"
version = "0.1.0"
edition = "2021"
publish = false

[dependencies]
async-trait = "0.1"
coap = "*"
coap-lite = "*"
log = "0.4"
rand = "0.9"
tokio = { version = "1", features = ["full", "test-util"] }
tower = { version = "0.5", features = ["full"] }
tower-resilience-cache = "*"
tower-resilience-coalesce = "*"
tower-resilience-retry = "*"
