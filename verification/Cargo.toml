[package]
name = "proj"
version = "0.1.0"
edition = "2021"
publish = false

[dependencies]
uuid = { version = "=1.27.0", features = ["v4", "serde"] }
chrono = { version = "=0.4.45", features = ["serde"] }
nix = { version = "=0.31.3", features = ["signal"] }
dirs = "=7.0.0"
serde = { version = "*", features = ["derive"] }
serde_json = "*"
tokio = { version = "*", features = ["full"] }
hyper = { version = "*", features = ["full"] }
hyper-util = { version = "*", features = ["tokio"] }
http-body-util = "*"
clap = { version = "*", features = ["derive"] }
anyhow = "*"
