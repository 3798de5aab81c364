[package]
name = "revom"
version = "0.1.0"
edition = "2021"
publish = false

[dependencies]
eframe = { version = "=0.20.1", default-features = false, features = ["glow", "default_fonts"] }
native-dialog = "=0.6.4"
