[package]
name = "raytrace"
version = "0.1.0"
edition = "2021"
publish = false

[dependencies]
rand = "=0.10.3"
image = "=0.25.10"
indicatif = "=0.18.6"
