[package]
name = "pimp_my_axis"
version = "0.1.0"
edition = "2021"
publish = false

[dependencies]
clap = { version = "*", features = ["derive"] }
env_logger = "*"
evdev-rs = "*"
libudev = "*"
log = "*"
nix = "*"
serde = { version = "*", features = ["derive"] }
serde_yaml = "*"
uinput = "*"
xdg = "*"
