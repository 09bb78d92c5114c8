[package]
name = "tasklog"
version = "0.1.0"
edition = "2021"
publish = false

[dependencies]
chrono = "*"
comfy-table = "*"
dialoguer = "*"
rusqlite = { version = "*", features = ["bundled", "array"] }
serde = { version = "*", features = ["derive"] }
serde_derive = "*"
structopt = "*"
term-table = "*"
toml = "*"
