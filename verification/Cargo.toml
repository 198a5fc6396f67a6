[package]
name = "book_auth"
version = "0.1.0"
edition = "2021"
publish = false

[dependencies]
ring = "0.17"
data-encoding = "2"
base64 = "0.13"
actix-web = "4"
actix-web-httpauth = "0.8"
sqlx = { version = "0.8", default-features = false, features = ["sqlite", "runtime-tokio"] }
serde_json = "1"
env_logger = "0.11"
futures = "0.3"
