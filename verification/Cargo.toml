[package]
name = "steptrace"
version = "0.1.0"
edition = "2021"
publish = false

[dependencies]
base64 = "0.22"
chrono = "0.4"
image = { version = "0.25", default-features = false, features = ["png"] }
imageproc = { version = "0.25", default-features = false }
log = "0.4"
rdev = "0.5"
serde = { version = "1", features = ["derive"] }
uuid = { version = "1", features = ["v4"] }
xcap = "0.4"
