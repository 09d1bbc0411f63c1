[package]
name = "shiftbook"
version = "0.1.0"
edition = "2021"
publish = false

[dependencies]
actix-web = "*"
log = "*"
lopdf = "*"
pretty_env_logger = "*"
qpdf = "*"
serde = { version = "*", features = ["derive"] }
serde_json = "*"
thiserror = "*"
time = "*"
walkdir = "*"
