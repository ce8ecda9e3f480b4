[package]
name = "upalla"
version = "0.1.0"
edition = "2021"
publish = false

[dependencies]
anyhow = "=1.0.104"
clap = { version = "=4.6.7", features = ["derive"] }
cpal = "=0.18.2"
crossbeam-channel = "=0.5.17"
crossbeam-queue = "=0.3.14"
ctrlc = "=3.5.2"
deep_filter = "=0.2.5"
eframe = { version = "*", default-features = false, features = ["default_fonts", "glow", "x11"] }
env_logger = "=0.11.11"
hound = "=3.5.1"
image = { version = "=0.25.10", default-features = false, features = ["png"] }
ksni = { version = "=0.3.7", features = ["blocking"] }
libloading = "=0.9.0"
libpulse-binding = "=2.30.1"
log = "=0.4.35"
ndarray = "=0.17.2"
realfft = "=3.5.1"
ringbuf = "=0.4.8"
rust-ini = "=0.21.3"
rustfft = "=6.4.1"
