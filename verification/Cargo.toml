[package]
name = "sint_solver"
version = "0.1.0"
edition = "2021"
publish = false

[dependencies]
clap = { version = "4", features = ["derive"] }
serde = { version = "1", features = ["derive"] }
serde_json = "1"
rayon = "1"
rand = "0.9"
rand_distr = "0.5"
ratatui = "*"
crossterm = "*"
log = "0.4"
env_logger = "*"
dashmap = "6"
crossbeam-channel = "0.5"
smallvec = "1"
axum = { version = "0.8", features = ["ws"] }
tokio = { version = "1", features = ["full"] }
futures = "0.3"
tower-http = { version = "*", features = ["cors"] }
tracing = "0.1"
