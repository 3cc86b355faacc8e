[package]
name = "ncspot"
version = "1.0.0"
edition = "2021"
publish = false

[dependencies]
chrono = { version = "0.4", default-features = false, features = ["clock"] }
crossbeam-channel = "0.5"
cursive = { version = "0.21", default-features = false }
fern = "0.7"
image = { version = "0.25", default-features = false, features = ["jpeg", "png"] }
libc = "0.2"
librespot-playback = { version = "0.4", default-features = false }
log = "0.4"
serde = { version = "1", features = ["derive"] }
serde_json = "1"
signal-hook = "0.3"
tokio = { version = "1", features = ["rt-multi-thread"] }
unicode-width = "0.2"
