[package]
name = "frostverb"
version = "0.1.0"
edition = "2021"
publish = false

[dependencies]
egui = { version = "0.32", default-features = false }
