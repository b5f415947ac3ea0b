[package]
name = "frame_relay"
version = "0.1.0"
edition = "2021"
publish = false

[dependencies]
kornia-io = { version = "0.1.14", default-features = false, features = ["gstreamer"] }
