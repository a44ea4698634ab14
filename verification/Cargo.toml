[package]
name = "loserar"
version = "0.1.0"
edition = "2021"
publish = false

[dependencies]
anyhow = "1"
chrono = { version = "0.4", default-features = false, features = ["clock"] }
dirs = "5"
egui = "0.27"
egui_extras = { version = "0.27", default-features = false }
walkdir = "2"
zip = { version = "0.6", default-features = false, features = ["deflate"] }
