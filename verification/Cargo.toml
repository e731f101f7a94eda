[package]
name = "dyadikos"
version = "0.1.0"
edition = "2021"
publish = false

[dependencies]
anyhow = "=1.0.104"
egui = "=0.21.0"
egui-miniquad = "=0.14.0"
hecs = "=0.10.5"
image = { version = "=0.24.9", default-features = false, features = ["png", "jpeg"] }
miniquad = "=0.3.16"
nalgebra = "=0.32.6"
serde = "=1.0.229"
serde_json = { version = "=1.0.154", features = ["arbitrary_precision", "preserve_order"] }
