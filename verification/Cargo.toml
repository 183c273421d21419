[package]
name = "randomi"
version = "0.1.0"
edition = "2021"
publish = false

[dependencies]
rand = "0.9"
chrono = { version = "0.4", features = ["serde"] }
uuid = { version = "1", features = ["v4", "serde"] }
serde = { version = "1", features = ["derive"] }
serde_json = "1"
actix-web = "4"
actix-ws = "*"
actix-cors = "*"
actix-files = "*"
actix-service = "2"
actix-web-lab = "*"
tokio = { version = "1", features = ["full"] }
tokio-stream = "*"
futures = "0.3"
futures-util = "0.3"
jsonwebtoken = "*"
polodb_core = "*"
diesel = { version = "2", features = ["postgres", "r2d2", "chrono"] }
bcrypt = "*"
lettre = "*"
log = "0.4"
env_logger = "*"
nanoid = "*"
utoipa = "*"
parking_lot = "*"
uid = "*"
lazy_static = "1"
