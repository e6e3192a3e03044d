[package]
name = "quick_mmr"
version = "0.1.0"
edition = "2021"
publish = false

[dependencies]
eframe = { version = "0.28", default-features = false, features = ["persistence"] }
egui = "0.28"
serde = { version = "1", features = ["derive"] }
