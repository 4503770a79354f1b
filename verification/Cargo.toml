[package]
name = "signal"
version = "0.1.0"
edition = "2021"
publish = false

[dependencies]
anyhow = "1"
hound = "3.5"
ndarray = "0.16"
ndarray-npy = { version = "0.9", default-features = false }
plotters = { version = "0.3", default-features = false, features = ["bitmap_backend", "bitmap_encoder", "line_series"] }
rand = "0.9"
rustfft = "6"
