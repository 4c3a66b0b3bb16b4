[package]
name = "cells"
version = "0.1.0"
edition = "2021"
publish = false

[dependencies]
rand = "*"
rayon = "*"
macroquad = "*"
serde = { version = "*", features = ["derive"] }
serde_json = "*"
