[package]
name = "vesper"
version = "0.1.0"
edition = "2021"
publish = false

[dependencies]
base64 = "0.22"
infer = "*"
mime = "0.3"
getrandom = "0.3"
image = { version = "0.25", default-features = false, features = ["png", "jpeg"] }
serde = { version = "1", features = ["derive"] }
serde_json = "1"
directories = "*"
filetime = "0.2"
