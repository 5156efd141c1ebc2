[package]
name = "backend"
version = "0.1.0"
edition = "2021"
publish = false

[dependencies]
deezer = "=0.1.0"
diesel = { version = "=2.3.14", features = ["sqlite"] }
dotenvy = "=0.15.7"
env_logger = "=0.10.2"
log = "=0.4.34"
ratelimit = "=0.9.1"
reqwest = { version = "=0.11.27", features = ["json"] }
serde = { version = "=1.0.229", features = ["derive"] }
tokio = { version = "=1.54.1", features = ["full"] }
warp = "=0.3.7"
