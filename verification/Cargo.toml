[package]
name = "dungeon_gen"
version = "0.1.0"
edition = "2021"
publish = false

[dependencies]
rand = "0.8"
serde = { version = "1", features = ["derive"] }
serde_json = "1"
gif = "0.13"
image = { version = "0.25", default-features = false, features = ["png"] }
