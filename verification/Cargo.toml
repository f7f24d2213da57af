[package]
name = "tetris"
version = "0.1.0"
edition = "2021"
publish = false

[dependencies]
rand = "0.8"
bevy = "0.5"
bevy_kira_audio = "0.5"
