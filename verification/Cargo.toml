[package]
name = "wavforge"
version = "0.1.0"
edition = "2021"
publish = false

[dependencies]
crossbeam-channel = "=0.5.17"
symphonia = { version = "=0.5.5", features = ["all"] }
log = "=0.4.35"
env_logger = { version = "=0.11.11", default-features = false }
cpal = "0.15"
egui = { version = "0.29", default-features = false, features = ["default_fonts"] }
