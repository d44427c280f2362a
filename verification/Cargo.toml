[package]
name = "rafx_framework"
version = "0.1.0"
edition = "2021"
publish = false

[dependencies]
egui = "0.12"
winit = "0.24"
serde = { version = "1", features = ["derive"] }
