[package]
name = "sprite_atlas"
version = "0.1.0"
edition = "2021"
publish = false

[dependencies]
base64 = "*"
image = { version = "*", default-features = false, features = ["png"] }
rectangle-pack = "*"
imagequant = "*"
lodepng = "*"

[dev-dependencies]
serde_json = "*"
