[package]
name = "mining_demo"
version = "0.1.0"
edition = "2021"
publish = false

[dependencies]
bevy = { version = "=0.17.3", default-features = false }
bevy_ecs_tilemap = { version = "=0.17.0", default-features = false }
bevy_asset_loader = { version = "=0.24.0", default-features = false }
vleue_navigator = { version = "=0.14.0", default-features = false }
bevy_tweening = { version = "=0.14.0", default-features = false }
bevy_pancam = { version = "=0.19.0", default-features = false }
rstar = "=0.12.2"
