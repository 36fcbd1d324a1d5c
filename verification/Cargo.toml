[package]
name = "permission_manager"
version = "0.1.0"
edition = "2021"
publish = false

[dependencies]
rusqlite = "*"
serde_json = "*"
anyhow = "*"
dirs = "*"

[dependencies.clap]
version = "*"
features = ["derive"]
