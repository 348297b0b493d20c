[package]
name = "reconf"
version = "0.1.0"
edition = "2021"
publish = false

[dependencies]
clap = "*"
dashmap = "*"
dirs = "*"
handlebars = { version = "*", features = ["script_helper"] }
main_error = "*"
rhai = "*"
serde = { version = "*", features = ["derive"] }
tar = "*"
thiserror = "*"
toml = "*"
