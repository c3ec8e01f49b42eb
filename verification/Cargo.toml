[package]
name = "tts-read"
version = "0.1.0"
edition = "2021"
publish = false

[dependencies]
anyhow = "1"
arboard = "3"
auto-launch = "*"
dirs = "*"
msedge-tts = "*"
parking_lot = "*"
rdev = "0.5"
rodio = "*"
serde = { version = "1", features = ["derive"] }
serde_json = "1"
tiny-skia = "*"
tracing = "*"
tracing-subscriber = { version = "*", features = ["env-filter"] }
tray-icon = "*"
uiautomation = "*"
windows-sys = { version = "*", features = ["Win32_Foundation", "Win32_UI_Input_KeyboardAndMouse", "Win32_System_DataExchange", "Win32_UI_WindowsAndMessaging"] }
