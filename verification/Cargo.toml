[package]
name = "r_audio"
version = "0.1.0"
edition = "2021"
publish = false

[dependencies]
urlencoding = "=2.1.3"
qrcode-generator = "=4.1.9"
image = { version = "=0.25.10", default-features = false, features = ["png", "jpeg"] }
serde = { version = "=1.0.229", features = ["derive"] }
serde_json = "=1.0.154"
tokio = { version = "=1.54.1", features = ["rt-multi-thread", "macros", "sync", "time", "fs"] }
reqwest = { version = "=0.12.28", default-features = false, features = ["json", "rustls-tls"] }
rspotify = { version = "=0.16.1", default-features = false, features = ["client-reqwest", "reqwest-rustls-tls"] }
chrono = "=0.4.45"
uuid = { version = "=1.29.0", features = ["v4"] }
lru = "=0.19.0"
rustfft = "=6.4.1"
tiny_http = "=0.12.0"
dotenvy = "=0.15.7"
async-trait = "=0.1.92"
