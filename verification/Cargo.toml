[package]
name = "screen_snip"
version = "0.1.0"
edition = "2021"
publish = false

[dependencies]
image = "=0.24.9"
chrono = "=0.4.45"
rayon = "=1.12.0"
