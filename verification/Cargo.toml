[package]
name = "anchor"
version = "0.1.0"
edition = "2021"
publish = false

[dependencies]
path-clean = "*"
relative-path = "*"
toml = "*"
regex = "*"
serde = { version = "*", features = ["derive"] }
serde_json = "*"
serde_yaml = "*"
globset = "*"
ignore = "*"
walkdir = "*"
clap = { version = "*", features = ["derive"] }
nix = { version = "*", features = ["signal", "process"] }
