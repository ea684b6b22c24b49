[package]
name = "pila"
version = "0.1.0"
edition = "2021"
publish = false

[dependencies]
chrono = "=0.4.45"
chrono-tz = "=0.10.4"
dotenvy = "0.15"
feed-rs = "=2.4.0"
pulldown-cmark = { version = "=0.13.6", default-features = false, features = ["html"] }
rand = "0.9"
serde = { version = "=1.0.229", features = ["derive"] }
serde_json = "=1.0.154"
uuid = { version = "=1.29.0", features = ["v4"] }
