[package]
name = "mcmonarch"
version = "0.1.0"
edition = "2021"
publish = false

[dependencies]
simplecrypt = "*"
serde = { version = "*", features = ["derive"] }
serde_json = "*"
log = "*"
reqwest = { version = "*", default-features = false, features = ["rustls-tls"] }
serenity = "*"
actix-web = "*"
actix-files = "*"
actix-http = "*"
futures = "*"
dotenv = "*"
pretty_env_logger = "*"
color-eyre = "*"
