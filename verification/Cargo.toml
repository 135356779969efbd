[package]
name = "authcore"
version = "0.1.0"
edition = "2021"
publish = false

[dependencies]
jsonwebtoken = "7"
argon2rs = "0.2"
validator = "0.10"
serde = { version = "1", features = ["derive"] }
dotenv = "0.15"
envy = "0.4"
uuid = { version = "0.8", features = ["v4"] }
