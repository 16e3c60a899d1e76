[package]
name = "chat_backend"
version = "0.1.0"
edition = "2021"
publish = false

[dependencies]
argon2 = "=0.5.3"
jsonwebtoken = "=9.3.1"
base64 = "=0.22.1"
rand_core = { version = "=0.6.4", features = ["std"] }
axum = "=0.8.9"
tokio = { version = "=1.53.2", features = ["macros", "rt-multi-thread", "net"] }
mongodb = "=3.9.1"
bson = "=2.15.0"
serde = { version = "=1.0.229", features = ["derive"] }
serde_json = "=1.0.151"
dotenv = "=0.15.0"
chrono = "=0.4.45"
futures = "=0.3.34"
