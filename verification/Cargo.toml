[package]
name = "benefit_engine"
version = "0.1.0"
edition = "2021"
publish = false

[dependencies]
chrono = { version = "0.4", default-features = false, features = ["std", "alloc"] }
chrono-tz = "*"
cron = "*"
sha2 = "0.10"
serde_json = "1"
