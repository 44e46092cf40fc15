[package]
name = "aravis-camera"
version = "0.1.0"
edition = "2021"
publish = false

[dependencies]
aravis = "0.11"
opencv = { version = "*", default-features = false, features = ["imgproc"] }
log = "0.4"
thiserror = "2"
