[package]
name = "csv_processor"
version = "0.1.0"
edition = "2021"
publish = false

[dependencies]
csv = "=1.4.0"
eframe = { version = "=0.22.0", default-features = false, features = ["default_fonts", "glow"] }
egui = { version = "=0.22.0", default-features = false }
encoding_rs = "=0.8.42"
encoding_rs_io = "=0.1.8"
rayon = "=1.12.0"
regex = "=1.13.1"
rfd = "=0.14.1"
