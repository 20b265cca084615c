[package]
name = "remin"
version = "0.1.0"
edition = "2021"
publish = false

[dependencies]
anyhow = "=1.0.104"
chrono = "=0.4.45"
clap = { version = "4", features = ["derive"] }
cpal = "=0.18.2"
enigo = "=0.6.1"
fps_ticker = "*"
gpu-video = "=0.4.0"
log = "0.4"
opus = "=0.4.0"
rtrb = "=0.4.1"
rustc-hash = "=2.1.3"
thiserror = "2"
tokio = { version = "1", features = ["full"] }
tracing = "0.1"
tracing-subscriber = { version = "0.3", features = ["env-filter"] }
wgpu = "29"
wincode = { version = "=0.6.3", features = ["derive"] }
winit = "=0.30.13"
yuv = "=0.8.20"
