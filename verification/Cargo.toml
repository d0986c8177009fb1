[package]
name = "rogue_core"
version = "0.1.0"
edition = "2021"
publish = false

[dependencies]
bounded-vec-deque = "*"
rltk = "*"
serde = { version = "1", features = ["derive"] }
serde_json = "1"
