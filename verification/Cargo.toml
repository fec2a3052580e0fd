[package]
name = "oregano"
version = "0.1.0"
edition = "2021"
publish = false

[dependencies]
egui = "0.27"
rusb = { version = "0.9", features = ["vendored"] }
