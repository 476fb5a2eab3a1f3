[package]
name = "piano_flow"
version = "0.1.0"
edition = "2021"
publish = false

[dependencies]
bevy_utils = "=0.14.2"
midir = "0.10"
