[package]
name = "zing_fog2d"
version = "0.1.0"
edition = "2021"
publish = false

[dependencies]
bevy = { version = "=0.15.3", default-features = false, features = ["bevy_asset", "bevy_color", "bevy_core_pipeline", "bevy_render"] }
bevy_asset = "=0.15.3"
bytemuck = { version = "=1.25.2", features = ["derive"] }
