[package]
name = "calendar_notice"
version = "0.1.0"
edition = "2021"
publish = false

[dependencies]
chrono = "=0.4.45"
rand = "=0.10.3"
uuid = { version = "=1.27.0", features = ["v4"] }
serde = { version = "=1.0.229", features = ["derive"] }
serde_json = "=1.0.151"
reqwest = { version = "=0.13.5", default-features = false, features = ["query", "form"] }
tokio = { version = "=1.53.2", features = ["rt-multi-thread", "macros", "time"] }
dotenvy = "=0.15.7"
open = "=5.4.4"
