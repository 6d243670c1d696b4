[package]
name = "taskbook"
version = "0.1.0"
edition = "2021"
publish = false

[dependencies]
clap = { version = "4", features = ["derive"] }
clap_derive = "4"
dirs = "*"
serde = { version = "1", features = ["derive"] }
serde_yml = "*"
