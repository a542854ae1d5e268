[package]
name = "moviebox_tui"
version = "0.1.0"
edition = "2021"
publish = false

[dependencies]
argon2 = { version = "=0.5.3", features = ["std"] }
base64 = "=0.23.1"
cookie = "=0.18.2"
hmac = "=0.13.0"
mime_guess = "=2.0.5"
percent-encoding = "=2.3.2"
quick-xml = "=0.42.0"
rand = "=0.10.3"
serde = { version = "=1.0.229", features = ["derive"] }
serde_json = "=1.0.154"
sha2 = "=0.11.1"
unicode-normalization = "=0.1.26"
unicode-segmentation = "=1.13.3"
url = "=2.5.8"
uuid = { version = "=1.29.0", features = ["v4"] }
