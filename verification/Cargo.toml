[package]
name = "sample_ring"
version = "0.1.0"
edition = "2021"
publish = false

[dependencies]
anyhow = "1"
bytemuck = "1"
chrono = "0.4"
cxx = "1"
env_logger = "*"
ffmpeg-next = "*"
log = "0.4"
thiserror = "1"
