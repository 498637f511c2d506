[package]
name = "rimmod"
version = "0.1.0"
edition = "2021"
publish = false

[dependencies]
nucleo-matcher = "=0.3.1"
quick-xml = { version = "=0.42.0", features = ["serialize"] }
serde = { version = "=1.0.229", features = ["derive"] }
serde_json = "=1.0.154"
notify = "=8.2.1"
steamlocate = "=2.1.1"
open = "=5.4.5"
reqwest = { version = "=0.12.28", default-features = false, features = ["blocking", "json", "rustls-tls"] }
eframe = { version = "*", default-features = false, features = ["default_fonts", "glow", "persistence", "x11"] }
egui-notify = "*"
