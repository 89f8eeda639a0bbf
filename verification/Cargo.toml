[package]
name = "sniff"
version = "0.1.0"
edition = "2021"
publish = false

[dependencies]
anyhow = "1"
clap = { version = "4", default-features = false, features = ["derive", "error-context", "help", "std", "usage"] }
dirs = "6"
eframe = { version = "0.29", default-features = false, features = ["default_fonts", "glow", "x11"] }
num-format = "0.4"
rayon = "1"
rfd = { version = "0.15", default-features = false, features = ["xdg-portal", "tokio"] }
serde = { version = "1", features = ["derive"] }
serde_json = { version = "1", features = ["raw_value"] }
simd-json = "0.14"
