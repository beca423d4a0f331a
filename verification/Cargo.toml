[package]
name = "fluid_sim"
version = "0.1.0"
edition = "2021"
publish = false

[dependencies]
bevy = { version = "=0.15.3", default-features = false, features = ["bevy_asset", "bevy_color", "bevy_core_pipeline", "bevy_gizmos", "bevy_render", "bevy_sprite", "bevy_state", "bevy_window"] }
bitflags = "=2.13.2"
rand = "=0.9.5"
rayon = "=1.12.0"
