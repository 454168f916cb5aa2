[package]
name = "actix_client_ip_cloudflare"
version = "0.2.0"
edition = "2021"
publish = false

[dependencies]
cidr-utils = { version = "0.5", features = ["serde"] }
serde = { version = "1", features = ["derive"] }
awc = { version = "3", default-features = false }
tracing = "0.1"
impl-more = "0.1"
