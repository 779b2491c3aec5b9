[package]
name = "notify_relay"
version = "0.1.0"
edition = "2021"
publish = false

[dependencies]
anyhow = "*"
dotenv = "*"
futures = "*"
iggy = "*"
lettre = { version = "*", default-features = false, features = ["smtp-transport", "builder", "rustls-tls"] }
tokio = { version = "*", features = ["full"] }
tracing = "*"
tracing-subscriber = { version = "*", features = ["env-filter"] }
