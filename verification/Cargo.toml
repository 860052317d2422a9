[package]
name = "encrypt_it"
version = "0.1.0"
edition = "2021"
publish = false

[dependencies]
anyhow = "=1.0.104"
chacha20poly1305 = { version = "=0.10.1", default-features = false, features = ["alloc"] }
des = "=0.8.1"
generic-array = "=0.14.7"
hex = "=0.4.3"
human-duration = "=0.1.0"
mime_guess = "=2.0.5"
chrono = { version = "=0.4.45", default-features = false, features = ["clock", "std"] }
egui = "=0.29.1"
eframe = { version = "=0.29.1", default-features = false, features = ["glow", "default_fonts", "x11"] }
egui_dock = "=0.14.0"
egui_extras = { version = "=0.29.1", default-features = false }
env_logger = { version = "=0.11.11", default-features = false }
rfd = { version = "=0.15.4", default-features = false, features = ["xdg-portal", "tokio"] }
