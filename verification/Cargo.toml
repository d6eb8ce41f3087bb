[package]
name = "budgy"
version = "0.1.0"
edition = "2021"
publish = false

[dependencies]
egui = "*"
egui_extras = { version = "*", default-features = false }
eframe = { version = "*", default-features = false, features = ["default_fonts", "glow", "x11", "persistence"] }
rfd = "*"
serde = { version = "*", features = ["derive"] }
ico = "*"
