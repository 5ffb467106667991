[package]
name = "openconfig"
version = "0.1.0"
edition = "2021"
publish = false

[dependencies]
serde = { version = "1", features = ["derive"] }
serde_json = "1"
dirs = "*"
ureq = "2"
eframe = { version = "0.31", default-features = false, features = ["default_fonts", "glow", "x11", "wayland"] }
rfd = "*"
image = { version = "*", default-features = false, features = ["png"] }
