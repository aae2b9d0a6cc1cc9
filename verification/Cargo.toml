[package]
name = "iris"
version = "0.1.0"
edition = "2021"
publish = false

[dependencies]
tiny-skia = "=0.12.0"
uuid = { version = "=1.29.0", features = ["v4", "serde"] }
image = { version = "=0.25.10", default-features = false, features = ["png"] }
arboard = "=3.7.0"
eframe = { version = "=0.37.0", default-features = false, features = ["glow", "x11", "default_fonts"] }
rfd = { version = "=0.17.2", default-features = false, features = ["xdg-portal"] }
serde = { version = "=1.0.229", features = ["derive"] }
