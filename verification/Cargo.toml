[package]
name = "rave_engine"
version = "0.1.0"
edition = "2021"
publish = false

[dependencies]
bevy = { version = "=0.18.1", default-features = false }
mlua = { version = "=0.11.6", features = ["luau"] }
