[package]
name = "scheme_handler"
version = "0.1.0"
edition = "2021"
publish = false

[dependencies]
base64 = "0.22"
flate2 = "1"
urlencoding = "2"
shell-words = "1"
rand = "0.9"
serde = { version = "1", features = ["derive"] }
serde_json = "1"
dirs = "6"
thiserror = "2"
rfd = { version = "0.15", default-features = false, features = ["gtk3"] }
eframe = { version = "0.31", default-features = false, features = ["glow", "x11", "default_fonts"] }
winreg = "0.55"
