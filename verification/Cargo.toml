[package]
name = "retro_2d"
version = "0.1.0"
edition = "2021"
publish = false

[dependencies]
bevy = { version = "0.15", default-features = false, features = ["bevy_asset", "bevy_core_pipeline", "bevy_render", "bevy_sprite", "bevy_state", "bevy_window", "bevy_winit", "png", "x11"] }
bevy_embedded_assets = "0.12"
console_error_panic_hook = "0.1"
console_log = "1"
log = "0.4"
wee_alloc = "0.4"
