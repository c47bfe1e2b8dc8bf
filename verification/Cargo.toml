[package]
name = "desk_agent"
version = "0.1.0"
edition = "2021"
publish = false

[dependencies]
anyhow = "=1.0.104"
argon2 = "=0.6.0"
ashpd = { version = "=0.13.13", default-features = false, features = ["tokio", "screencast"] }
axum = { version = "=0.8.9", default-features = false, features = ["http1", "json", "tokio", "ws"] }
base64 = "=0.22.1"
evdev = "=0.13.2"
gstreamer = "=0.25.4"
gstreamer-app = "=0.25.2"
gstreamer-video = "=0.25.4"
jsonwebtoken = { version = "=10.4.0", features = ["rust_crypto"] }
# A dependency of gstreamer, held back: later versions need a newer compiler than 1.95.
kstring = "=2.0.2"
qrcode = { version = "=0.14.1", default-features = false }
rand = "=0.10.3"
reqwest = { version = "=0.12.28", default-features = false, features = ["json", "rustls-tls"] }
rpassword = "=7.5.4"
serde = { version = "=1.0.229", features = ["derive"] }
serde_json = { version = "=1.0.154", features = ["raw_value"] }
sha2 = "=0.11.1"
str0m = "=0.24.1"
tokio = { version = "=1.54.1", features = ["full"] }
toml = "=1.1.8"
totp-rs = { version = "=6.0.0", features = ["otpauth", "qr"] }
tower-http = { version = "=0.7.1", features = ["fs"] }
tracing = "=0.1.44"
tracing-subscriber = { version = "=0.3.23", default-features = false, features = ["env-filter", "fmt"] }
