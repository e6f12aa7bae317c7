[package]
name = "cima_server"
version = "0.1.0"
edition = "2021"
publish = false

[dependencies]
anyhow = "=1.0.104"
base64 = "=0.21.7"
clap = { version = "=4.6.7", features = ["derive"] }
env_logger = "=0.10.2"
lazy_static = "=1.5.1"
log = "=0.4.34"
openssl = "=0.10.81"
prost = "=0.11.9"
regex = "=1.13.1"
serde = { version = "=1.0.229", features = ["derive"] }
serde_yaml = "=0.9.34"
tokio = { version = "=1.54.1", features = ["macros", "rt-multi-thread", "net"] }
tokio-stream = { version = "=0.1.19", features = ["net"] }
tonic = "=0.9.2"
tonic-health = "=0.9.2"
tonic-reflection = "=0.9.2"
tower = { version = "=0.4.13", features = ["util"] }
