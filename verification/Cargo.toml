[package]
name = "known"
version = "0.1.0"
edition = "2021"
publish = false

[dependencies]
auto-launch = "*"
clap = { version = "*", features = ["derive"] }
directories = "*"
nix = { version = "*", features = ["fs", "signal", "process"] }
notify = "*"
serde = { version = "*", features = ["derive"] }
serde_json = "*"
