[package]
name = "qingmo"
version = "0.1.0"
edition = "2021"
publish = false

[dependencies]
eframe = { version = "0.31.1", default-features = false, features = ["glow", "x11", "default_fonts"] }
egui = "0.31.1"
rfd = "0.15.4"
serde = { version = "1", features = ["derive"] }
serde_json = "1"
ureq = { version = "3", default-features = false, features = ["json", "rustls"] }
