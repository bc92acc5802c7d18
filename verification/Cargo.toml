[package]
name = "zapfast"
version = "0.1.0"
edition = "2021"
publish = false

[dependencies]
directories = "6"
eframe = { version = "*", default-features = false, features = ["glow", "persistence", "x11"] }
rand = "*"
tempfile = "3"
tokio = { version = "1", features = ["rt"] }
