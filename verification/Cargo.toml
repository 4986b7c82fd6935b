[package]
name = "forma"
version = "0.1.0"
edition = "2021"
publish = false

[dependencies]
serde = { version = "=1.0.229", features = ["derive"] }
serde_json = "=1.0.154"
directories = "=6.0.0"
egui = "=0.36.2"
egui_dock = "=0.21.1"
