[package]
name = "engine"
version = "0.1.0"
edition = "2021"
publish = false

[dependencies]
rand = "0.7"
noise = { version = "0.6", default-features = false }
image = { version = "0.23", default-features = false, features = ["png", "gif"] }
rusttype = "0.9"
log = "0.4"
clock_ticks = "0.1"
winit = "0.22"
winit_input_helper = "0.7"
pixels = "0.0.4"
