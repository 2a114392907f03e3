[package]
name = "ant_sim"
version = "0.1.0"
edition = "2021"

[dependencies]
rand = "0.8"
pixels = "0.11"
winit = "0.27"
