[package]
name = "accounting"
version = "0.1.0"
edition = "2021"
publish = false

[dependencies]
actix = "0.7"
actix-web = { version = "0.7", default-features = false }
base64 = "0.10"
bincode = "1"
chrono = { version = "0.4", features = ["serde"] }
clap = "2"
env_logger = "0.6"
error-chain = "0.12"
failure = "0.1"
futures = "0.1"
lettre = "0.9"
lettre_email = "0.9"
log = "0.4"
mime = "0.3"
serde = "1"
serde_derive = "1"
serde_json = "1"
serde_yaml = "0.8"
telegram-bot = { version = "0.6", default-features = false, features = ["curl_connector"] }
tokio-core = "0.1"
uuid = { version = "0.7", features = ["v4"] }
