[package]
name = "path_editor_core"
version = "0.1.0"
edition = "2021"
publish = false

[dependencies]
serde = { version = "1", features = ["derive"] }
serde_json = "1"
chrono = "0.4"
dirs = "5"
log = "0.4"
clap = { version = "4", features = ["derive"] }
winreg = "0.52"
