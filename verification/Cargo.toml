[package]
name = "sonido"
version = "0.1.0"
edition = "2021"
publish = false

[dependencies]
clack-extensions = { version = "=0.2.0", features = ["audio-ports", "clack-plugin", "latency", "params", "state"] }
clack-plugin = "=0.2.0"
eframe = { version = "=0.31.1", default-features = false, features = ["default_fonts", "glow", "x11"] }
egui = "=0.31.1"
egui-snarl = "=0.7.1"
image = { version = "0.25", default-features = false, features = ["png"] }
libm = "0.2"
rfd = { version = "0.15", default-features = false, features = ["xdg-portal", "tokio"] }
serde = { version = "1", features = ["derive"] }
serde_json = "1"
thiserror = "2"
tracing = "0.1"
