[package]
name = "artisan_tools"
version = "0.1.0"
edition = "2021"
publish = false

[dependencies]
gix = "*"
clap = { version = "*", features = ["derive"] }
console = "*"
dialoguer = "*"
strum = { version = "*", features = ["derive"] }
anyhow = "*"
toml_edit = "*"

[dev-dependencies]
tempfile = "*"
semver = "*"
