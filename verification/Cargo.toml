[package]
name = "falling_sand"
version = "0.1.0"
edition = "2021"
publish = false

[dependencies]
fastrand = "2"
hashbrown = { version = "0.14", features = ["raw"] }
