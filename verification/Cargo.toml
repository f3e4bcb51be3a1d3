[package]
name = "aura"
version = "0.1.0"
edition = "2021"
publish = false

[dependencies]
anyhow = "1"
ash = "*"
ash-window = "*"
clap = { version = "4", features = ["derive"] }
ffmpeg-next = "*"
log = "0.4"
owo-colors = "*"
pretty_env_logger = "0.5"
raw-window-handle = "0.6"
thiserror = "*"
winit = "0.30"
