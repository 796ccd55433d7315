[package]
name = "game"
version = "0.1.0"
edition = "2021"
publish = false

[dependencies]
getrandom = "0.3"
postcard = { version = "1", features = ["use-std"] }
serde = { version = "1", features = ["derive"] }
tokio = { version = "1", features = ["full"] }
rusqlite = { version = "0.37", features = ["bundled"] }
ggez = { version = "0.10", default-features = false }
