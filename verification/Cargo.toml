[package]
name = "remote_shutdown"
version = "0.1.0"
edition = "2021"
publish = false

[dependencies]
enigo = "*"
evdev = "0.12"
gtk = "0.18"
tray-icon = "*"
uinput = "0.1"
winreg = "*"
