[package]
name = "joy"
version = "0.1.0"
edition = "2021"
publish = false

[dependencies]
axum = { version = "0.8", features = ["ws"] }
bytes = "1"
nokhwa = { version = "0.10", default-features = false }
openh264 = "*"
opus = "*"
ringbuf = "0.4"
serde = { version = "1", features = ["derive"] }
serde_json = "1"
thiserror = "2"
tokio = { version = "1", features = ["macros", "net", "rt-multi-thread", "signal", "sync", "time"] }
tracing = "0.1"
tracing-subscriber = "0.3"
webrtc = "0.13"
zune-jpeg = "0.5"
