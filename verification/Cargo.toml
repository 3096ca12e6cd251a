[package]
name = "orynth"
version = "0.1.0"
edition = "2021"
publish = false

[dependencies]
getrandom = "0.2"
rusqlite = { version = "0.31", features = ["bundled"] }
