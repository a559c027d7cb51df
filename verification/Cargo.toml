[package]
name = "hardwave-wettboi"
version = "0.4.4"
edition = "2021"
publish = false

[dependencies]
clap-sys = "0.5"
crossbeam-channel = "0.5"
dirs = "5"
dispatch = "0.2"
gtk = "0.18"
parking_lot = "0.12"
raw-window-handle = "0.6"
serde = { version = "1", features = ["derive"] }
serde_json = "1"
ureq = "2"
windows-sys = { version = "0.59", features = ["Win32_Foundation", "Win32_UI_Input_KeyboardAndMouse"] }
wry = ">=0.46, <0.51"
