[package]
name = "ss-rs"
version = "0.1.0"
edition = "2021"
publish = false

[dependencies]
anyhow = "1"
clap = { version = "4", features = ["derive", "env"] }
eframe = { version = "*", default-features = false, features = ["default_fonts", "glow", "x11"] }
ring = "0.17"
tokio = { version = "1", features = ["full"] }
tracing = "0.1"
tracing-subscriber = "0.3"
tun = { version = "0.8", features = ["async"] }
