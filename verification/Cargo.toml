[package]
name = "fly_cam"
version = "0.1.0"
edition = "2021"
publish = false

[dependencies]
bevy_app = "0.13"
bevy_ecs = "0.13"
bevy_input = "0.13"
bevy_math = "0.13"
bevy_time = "0.13"
bevy_transform = "0.13"
bevy_window = "0.13"
