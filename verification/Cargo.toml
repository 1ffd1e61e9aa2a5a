[package]
name = "paagan"
version = "0.1.0"
edition = "2021"
publish = false

[dependencies]
anyhow = "=1.0.104"
bollard = "=0.21.1"
chrono = "=0.4.45"
clap = { version = "=4.6.7", features = ["derive"] }
dirs = "=7.0.0"
flate2 = "=1.1.10"
futures-util = "=0.3.34"
gag = "=1.0.0"
portpicker = "=0.1.1"
serde = { version = "=1.0.229", features = ["derive"] }
serde_json = "=1.0.154"
tar = "=0.4.46"
tokio = { version = "=1.54.1", features = ["full"] }
