[package]
name = "bevy_softbody"
version = "0.1.0"
edition = "2021"
publish = false

[dependencies]
bytemuck = { version = "1", features = ["derive"] }
glam = { version = "=0.30.8", features = ["bytemuck"] }
libm = "0.2"
bevy = { version = "0.19", default-features = false, features = ["std", "bevy_pbr"] }
