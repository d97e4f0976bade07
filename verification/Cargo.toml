[package]
name = "mitase_workbench_server"
version = "0.1.0"
edition = "2021"
publish = false

[dependencies]
sha2 = "0.10"
serde = { version = "1", features = ["derive"] }
serde_json = "1"
serde_yaml = "0.9"
clap = { version = "4", features = ["derive"] }
anyhow = "1"
axum = "0.8"
tokio = { version = "1", features = ["rt-multi-thread", "net", "signal", "macros"] }
