[package]
name = "ecs_storage"
version = "0.1.0"
edition = "2021"
publish = false

[dependencies]
bevy_platform_support = "0.16.0-rc.1"
bevy_utils = "=0.16.0-rc.1"
