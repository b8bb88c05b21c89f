[package]
name = "riverworld"
version = "0.1.0"
edition = "2021"
publish = false

[dependencies]
rand = { version = "=0.8.8", default-features = false }
rand_xoshiro = "=0.6.0"
bresenham = "=0.1.1"
agb = "=0.20.5"
agbrs_flash = "=0.4.0"
