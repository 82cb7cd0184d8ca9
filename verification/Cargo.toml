[package]
name = "vhs-gui"
version = "0.1.0"
edition = "2021"
publish = false

[dependencies]
anyhow = "=1.0.104"
eframe = { version = "=0.34.3", default-features = false, features = ["default_fonts", "glow", "wayland"] }
egui = { version = "=0.34.3", default-features = false }
glow = "=0.17.0"
