[package]
name = "eve_log_scripts"
version = "0.1.0"
edition = "2021"
publish = false

[dependencies]
regex = "1"
chrono = "0.4"
serde = { version = "1", features = ["derive"] }
serde_json = "1"
lazy_static = "1"
strum = { version = "*", features = ["derive"] }
notify = "*"
dirs = "*"
eframe = { version = "*", default-features = false, features = ["default_fonts", "glow", "persistence", "x11"] }
egui = "*"
rfd = { version = "*", default-features = false }
rodio = "*"
