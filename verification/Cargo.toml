[package]
name = "jep_rs"
version = "0.1.0"
edition = "2021"
publish = false

[dependencies]
chrono = { version = "0.4", default-features = false, features = ["std", "clock", "serde"] }
serde = { version = "1", features = ["derive"] }
mongodb = "3"
actix-web = "4"
async-trait = "0.1"
futures-util = "0.3"
dotenvy = "0.15"
env_logger = "0.11"
