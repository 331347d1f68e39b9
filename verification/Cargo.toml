[package]
name = "website_mirror"
version = "0.1.0"
edition = "2021"
publish = false

[dependencies]
url = "*"
pathdiff = "*"
mime_guess = "*"
image = { version = "*", default-features = false, features = ["png", "jpeg"] }
webp = "*"
serde = { version = "*", features = ["derive"] }
serde_json = "*"
reqwest = { version = "*", default-features = false, features = ["blocking", "rustls-tls"] }
