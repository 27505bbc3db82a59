[package]
name = "rnpt"
version = "0.1.0"
edition = "2021"
publish = false

[dependencies]
nalgebra = "0.33"
wide = "1"
serde_json = "1"
image = { version = "0.25", default-features = false, features = ["hdr", "png", "jpeg"] }
gltf = { version = "1.4", features = ["KHR_lights_punctual", "KHR_materials_emissive_strength", "KHR_materials_transmission", "KHR_materials_ior", "KHR_materials_volume"] }
eframe = { version = "0.29", default-features = false, features = ["default_fonts", "glow", "x11"] }
