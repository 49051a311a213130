[package]
name = "ld55_summoning"
version = "0.1.0"
edition = "2021"
publish = false

[dependencies]
bevy = { version = "0.13", default-features = false }
rand = { version = "0.8" }
