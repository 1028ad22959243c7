[package]
name = "bruh"
version = "0.1.0"
edition = "2021"
publish = false

[dependencies]
eframe = { version = "0.22", default-features = false, features = ["default_fonts", "glow"] }
egui_extras = { version = "0.22", features = ["image"] }
image = "0.24"
rayon = "1"
skia-safe = "0.66"
