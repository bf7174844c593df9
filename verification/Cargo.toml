[package]
name = "faceauth"
version = "0.1.0"
edition = "2021"
publish = false

[dependencies]
clap = { version = "=4.6.7", features = ["derive"] }
dlib-face-recognition = "=0.3.2"
gettext-rs = { version = "=0.8.0", features = ["gettext-system"] }
libc = "=0.2.191"
nokhwa = "=0.10.11"
notify-rust = "=4.18.2"
pamsm = { version = "=0.5.5", features = ["libpam"] }
serde = { version = "=1.0.229", features = ["derive"] }
serde_json = "=1.0.154"
thiserror = "=2.0.21"
