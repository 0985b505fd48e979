[package]
name = "line_fractal"
version = "0.1.0"
edition = "2021"
publish = false

[dependencies]
egui = "=0.28.1"
eframe = { version = "=0.28.1", default-features = false, features = ["glow"] }
