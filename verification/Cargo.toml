[package]
name = "tashi_swarm"
version = "0.1.0"
edition = "2021"
publish = false

[dependencies]
anyhow = "=1.0.104"
axum = "=0.8.9"
bincode = "=1.3.3"
clap = { version = "=4.6.7", features = ["derive"] }
rand = "=0.8.8"
redb = "=4.4.0"
reqwest = { version = "=0.13.5", default-features = false, features = ["json"] }
rig-core = "0.32"
serde = { version = "=1.0.229", features = ["derive"] }
serde_json = "=1.0.154"
tashi-vertex = "=0.15.0"
tokio = { version = "=1.54.1", features = ["full"] }
tower-http = { version = "=0.6.11", features = ["cors"] }
