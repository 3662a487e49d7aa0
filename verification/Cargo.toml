[package]
name = "disturbar"
version = "0.1.0"
edition = "2021"
publish = false

[dependencies]
evdev-rs = "0.6"
input = "0.9"
libc = "0.2"
nix = { version = "0.29", features = ["poll"] }
serde = { version = "1", features = ["derive"] }
serde_json = "1"
tempfile = "3"
wayland-client = "0.31"
wayland-protocols-wlr = { version = "0.3", features = ["client"] }
