[package]
name = "radarc"
version = "0.1.0"
edition = "2021"
publish = false

[dependencies]
anyhow = "1"
byteorder = "1"
ndarray = "0.15"
plotly = "0.8"
plotters = { version = "0.3", default-features = false, features = ["bitmap_backend"] }
png = "0.17"
serde = { version = "1", features = ["derive"] }
serde_json = "1"
thiserror = "1"
