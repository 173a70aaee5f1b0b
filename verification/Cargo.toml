[package]
name = "h3cell"
version = "0.1.0"
edition = "2021"
publish = false

[dependencies]
rand = "=0.8.8"
hex = "=0.4.3"
serde = { version = "=1.0.229", features = ["derive"] }
thiserror = "=1.0.69"
h3ron-h3-sys = "=0.17.0"
redis = "=0.23.5"
google_maps = { version = "=3.10.0", default-features = false, features = ["elevation"] }
