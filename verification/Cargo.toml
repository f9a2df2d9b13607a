[package]
name = "uptime_monitor"
version = "0.1.0"
edition = "2021"
publish = false

[dependencies]
influxdb2 = "0.5"
chrono = "0.4"
futures = "0.3"
tokio = { version = "1", features = ["macros", "rt-multi-thread", "time"] }
reqwest = { version = "0.11", default-features = false, features = ["rustls-tls", "json"] }
dotenv = "0.15"
serde = { version = "1", features = ["derive"] }
uuid = { version = "1", features = ["v4"] }
