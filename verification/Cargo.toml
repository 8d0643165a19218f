[package]
name = "gurukul"
version = "0.1.0"
edition = "2021"
publish = false

[dependencies]
flate2 = "1"
serde_json = "1"
serde = { version = "1", features = ["derive"] }
clap = { version = "4", default-features = false, features = ["std", "derive", "help", "usage", "error-context"] }
crossterm = "0.28"
ratatui = "0.29"
bevy = { version = "0.18", default-features = false, features = ["std", "bevy_asset", "bevy_color", "bevy_log", "bevy_picking", "bevy_sprite_render", "bevy_state", "bevy_text", "bevy_ui", "bevy_ui_render", "bevy_window"] }
