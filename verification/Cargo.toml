[package]
name = "canum"
version = "0.1.0"
edition = "2021"
publish = false

[dependencies]
rand = "=0.9.5"
rand_distr = "=0.5.1"
serde = { version = "=1.0.229", features = ["derive"] }
serde_json = "=1.0.154"
ron = "=0.12.3"
toml = "=1.1.8"
log = "=0.4.35"
bevy = { version = "=0.17.3", default-features = false, features = ["std", "bevy_log", "bevy_state", "bevy_color"] }
avian2d = { version = "=0.4.1", default-features = false, features = ["2d", "f32", "parry-f32", "default-collider"] }
