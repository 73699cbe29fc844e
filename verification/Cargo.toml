[package]
name = "serial_commander"
version = "0.1.0"
edition = "2021"
publish = false

[dependencies]
crossbeam-channel = "=0.5.17"
eframe = { version = "=0.31.1", default-features = false, features = ["default_fonts", "glow", "x11", "wayland"] }
egui = { version = "=0.31.1", default-features = false }
serialport = { version = "=4.10.1", default-features = false }
