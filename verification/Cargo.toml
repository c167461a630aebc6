[package]
name = "ddns_route53"
version = "0.1.0"
edition = "2021"
publish = false

[dependencies]
anyhow = "1"
aws-config = "1"
aws-sdk-route53 = "1"
clap = { version = "4", features = ["derive"] }
crossterm = "0.28"
env_logger = "0.11"
inquire = "0.7"
log = "0.4"
reqwest = { version = "0.12", default-features = false, features = ["rustls-tls"] }
serde = { version = "1", features = ["derive"] }
thiserror = "2"
tokio = { version = "1", features = ["macros", "rt-multi-thread"] }
toml = "0.8"
xdg = "3"
