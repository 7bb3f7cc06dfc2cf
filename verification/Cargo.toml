[package]
name = "sway_window_nav"
version = "0.1.0"
edition = "2021"
publish = false

[dependencies]
swayipc = "*"
anyhow = "*"
