[package]
name = "aiedf_pipeline"
version = "0.1.0"
edition = "2021"
publish = false

[dependencies]
crossbeam-channel = "0.5"
parking_lot = "0.12"
libc = "0.2"
ctrlc = "3"
serde = { version = "1", features = ["derive"] }
serde_json = "1"
tokio = { version = "1", features = ["net", "rt", "rt-multi-thread", "macros", "time", "sync", "io-util"] }
eframe = { version = "0.26", default-features = false, features = ["glow", "default_fonts"] }
egui_plot = "0.26"
