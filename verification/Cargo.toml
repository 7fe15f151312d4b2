[package]
name = "window_cycler"
version = "0.1.0"
edition = "2021"
publish = false

[dependencies]
anyhow = "*"
evdev = "*"
x11rb = "*"
eframe = { version = "*", default-features = false, features = ["glow", "x11", "default_fonts"] }
