[package]
name = "traffic_light"
version = "0.1.0"
edition = "2021"
publish = false

[dependencies]
anyhow = "1"
esp-idf-svc = "0.48"
heapless = "0.8"
log = "0.4"
thiserror = "1"
