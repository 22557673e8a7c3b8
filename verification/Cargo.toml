[package]
name = "osmviz"
version = "0.1.0"
edition = "2021"
publish = false

[dependencies]
anyhow = "1"
geo = "*"
geo-buffer = "*"
geozero = { version = "*", default-features = false, features = ["with-mvt", "with-geo"] }
glam = "*"
image = { version = "0.25", default-features = false, features = ["png", "jpeg"] }
log = "0.4"
lru = "*"
rand = "0.9"
rayon = "1"
reqwest = { version = "0.12", default-features = false, features = ["blocking"] }
vulkano = "0.35"
vulkano-shaders = "0.35"
winit = "0.30"
