[package]
name = "g6_control"
version = "0.1.0"
edition = "2021"
publish = false

[dependencies]
anyhow = "1"
clap = { version = "4", features = ["derive"] }
eframe = { version = "*", default-features = false, features = ["default_fonts", "glow", "wayland", "x11"] }
epaint_default_fonts = "*"
fontdue = "*"
hidapi = { version = "*", default-features = false, features = ["linux-native-basic-udev"] }
ksni = { version = "*", features = ["blocking"] }
rusb = { version = "*", features = ["vendored"] }
serde = { version = "1", features = ["derive"] }
serde_json = "1"
x11rb = { version = "*", features = ["image"] }
