[package]
name = "cloudevents_http"
version = "0.1.0"
edition = "2021"
publish = false

[dependencies]
http = "1"
hyper = "1"
axum = { version = "0.7", default-features = false }
async-trait = "0.1"

[dev-dependencies]
tokio = { version = "1", features = ["rt"] }
