[package]
name = "port_plumber"
version = "0.1.0"
edition = "2021"
publish = false

[dependencies]
anyhow = "1"
axum = "0.6"
clap = { version = "4", features = ["derive"] }
dirs = "*"
env_logger = "*"
futures = "0.3"
handlebars = "*"
hyper = "0.14"
hyperlocal = "0.8"
log = "0.4"
serde = { version = "1", features = ["derive"] }
serde_json = "1"
tokio = { version = "1", features = ["full"] }
toml = "*"
