[package]
name = "gpui_kit"
version = "0.1.0"
edition = "2021"
publish = false

[dependencies]
unicode-segmentation = "=1.13.3"
serde = { version = "=1.0.229", features = ["derive"] }
serde_json = "=1.0.154"
palette = "=0.7.7"
anyhow = "=1.0.104"
strum = { version = "=0.27.2", features = ["derive"] }
