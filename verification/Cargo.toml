[package]
name = "rebase_migrations"
version = "0.5.0"
edition = "2021"
publish = false

[dependencies]
rustpython-parser = "0.4"
serde = { version = "1", features = ["derive"] }
serde_json = { version = "1", features = ["preserve_order"] }
clap = "4"
cli-table = "0.4"
walkdir = "2"

[dev-dependencies]
tempfile = "3"
