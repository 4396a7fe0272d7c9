[package]
name = "html_ui"
version = "0.1.0"
edition = "2021"
publish = false

[dependencies]
bevy = { version = "0.18", default-features = false, features = ["std", "bevy_asset", "bevy_ui", "bevy_text", "bevy_picking", "bevy_input_focus"] }
bevy_flair = "0.7"
thiserror = "=2.0.21"
