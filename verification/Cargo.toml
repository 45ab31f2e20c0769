[package]
name = "mwb_bridge"
version = "0.1.0"
edition = "2021"
publish = false

[dependencies]
aes = "*"
arboard = "*"
core-graphics = "*"
flate2 = "*"
hex = "*"
image = { version = "*", default-features = false, features = ["png"] }
memfd = "*"
pbkdf2 = { version = "*", features = ["hmac"] }
rand = "*"
serde = { version = "*", features = ["derive"] }
serde_json = "*"
sha2 = "*"
tao = "*"
tray-icon = "*"
wayland-client = "*"
wayland-protocols-misc = { version = "*", features = ["client"] }
wayland-protocols-wlr = { version = "*", features = ["client"] }
xkbcommon = "*"
