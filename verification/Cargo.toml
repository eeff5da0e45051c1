[package]
name = "wiki_engine"
version = "0.1.0"
edition = "2021"
publish = false

[dependencies]
slug = "=0.1.6"
percent-encoding = "=2.3.2"
titlecase = "=3.6.0"
futures = "=0.1.31"
futures-cpupool = "=0.1.8"
hyper = { version = "=1.12.0", default-features = false }
serde = { version = "=1.0.229", features = ["derive"] }
serde_json = "=1.0.154"
serde_urlencoded = "=0.7.1"
chrono = { version = "=0.4.45", default-features = false, features = ["std", "clock"] }
diesel = { version = "=2.3.14", default-features = false, features = ["sqlite", "r2d2"] }
r2d2 = "0.8"
sha2 = "=0.11.1"
base64 = "=0.23.1"
