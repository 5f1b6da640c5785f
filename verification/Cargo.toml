[package]
name = "receipt_raster"
version = "0.1.0"
edition = "2021"
publish = false

[dependencies]
ab_glyph = "=0.2.32"
ar-reshaper = "=1.5.0"
escpos = { version = "=0.20.1", default-features = false }
image = { version = "=0.25.10", default-features = false }
imageproc = { version = "=0.27.0", default-features = false, features = ["text"] }
serde = { version = "=1.0.229", features = ["derive"] }
serde_json = "=1.0.151"
