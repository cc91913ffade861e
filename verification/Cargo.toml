[package]
name = "authenticator"
version = "0.1.0"
edition = "2021"
publish = false

[dependencies]
totp-rs = { version = "5", features = ["otpauth"] }
hmac = "0.12"
sha1 = "0.10"
sha2 = "0.10"
url = "2"
urlencoding = "2"
serde = { version = "1", features = ["derive"] }
serde_json = "1"
arboard = { version = "3", default-features = false }

[dev-dependencies]
data-encoding = "2"
