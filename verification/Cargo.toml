[package]
name = "dancemode"
version = "0.1.0"
edition = "2021"
publish = false

[dependencies]
sled = "0.34"
uuid = { version = "1", features = ["v4", "serde"] }
chrono = { version = "0.4", features = ["serde"] }
serde = { version = "1", features = ["derive"] }
serde_json = "1"
anyhow = "1"
log = "0.4"
env_logger = "*"
bcrypt = "*"
jsonwebtoken = "*"
validator = { version = "*", features = ["derive"] }
actix-web = "4"
actix-cors = "*"
actix-web-httpauth = "*"
