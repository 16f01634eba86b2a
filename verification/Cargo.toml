[package]
name = "mail_app"
version = "0.1.0"
edition = "2021"
publish = false

[dependencies]
base64 = "=0.22.1"
serde_json = "=1.0.154"
url = "=2.5.8"
chrono = "0.4"
futures-util = "0.3"
tokio = { version = "1", default-features = false, features = ["rt", "sync", "time"] }
reqwest = { version = "0.12", default-features = false, features = ["rustls-tls"] }
