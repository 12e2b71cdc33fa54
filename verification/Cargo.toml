[package]
name = "task-var"
version = "0.1.0"
edition = "2021"
publish = false

[dependencies]
ab_glyph = "0.2"
anyhow = "1"
image = { version = "0.25", default-features = false, features = ["jpeg", "png", "webp"] }
resvg = { version = "0.45", default-features = false }
serde = { version = "1", features = ["derive"] }
serde_json = "1"
signal-hook = "0.3"
