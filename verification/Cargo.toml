[package]
name = "hab_auto_build"
version = "0.1.0"
edition = "2021"
publish = false

[dependencies]
petgraph = "*"
glob = "*"
tar = "*"
xz2 = "*"
tokio = { version = "*", features = ["full"] }
serde = { version = "*", features = ["derive"] }
serde_json = "*"
clap = { version = "*", features = ["derive"] }
anyhow = "*"
chrono = { version = "*", features = ["serde"] }
tracing = "*"
tracing-subscriber = "*"
tempdir = "*"
