[package]
name = "ferrite"
version = "0.1.0"
edition = "2021"
publish = false

[dependencies]
anyhow = "1"
ashpd = { version = "=0.13.13", features = ["screencast"] }
bincode = "=1.3.3"
image = { version = "=0.25.10", default-features = false, features = ["png"] }
input-linux = "=0.7.1"
jni = "=0.21.1"
ksni = { version = "=0.3.7", features = ["blocking"] }
libc = "=0.2.191"
local-ip-address = "=0.6.13"
pipewire = "=0.9.2"
qrcode = { version = "=0.14.1", default-features = false, features = ["image"] }
ron = "=0.12.3"
rusb = "=0.9.4"
serde = { version = "1", features = ["derive"] }
serde_json = "1"
socket2 = { version = "=0.6.5", features = ["all"] }
tokio = { version = "=1.54.1", features = ["full"] }
tracing = "0.1"
tracing-subscriber = "0.3"
turbojpeg = "=1.5.1"
xxhash-rust = { version = "=0.8.19", features = ["xxh3"] }
