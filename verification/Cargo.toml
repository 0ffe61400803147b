[package]
name = "template_repo"
version = "0.1.0"
edition = "2021"
publish = false

[dependencies]
base64 = "0.13"
clap = "2.33"
custom_error = "1"
dialoguer = "0.10"
log = "0.4"
serde = { version = "1", features = ["derive"] }
serde_json = "1"
