[package]
name = "pixaki_converter"
version = "0.1.0"
edition = "2021"
publish = false

[dependencies]
serde = { version = "1", features = ["derive"] }
serde_json = "1"
plist = "1"
image = { version = "0.25", default-features = false, features = ["png"] }
clap = { version = "4", features = ["derive"] }
aseprite = "*"
anyhow = "1"
jni = "0.21"
