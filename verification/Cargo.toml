[package]
name = "scene_core"
version = "0.1.0"
edition = "2021"
publish = false

[dependencies]
glow = "*"
serde = { version = "1", features = ["derive"] }
strum = "*"
strum_macros = "*"
