[package]
name = "webp_tray"
version = "0.1.0"
edition = "2021"
publish = false

[dependencies]
unicode-segmentation = "1"
unicode-general-category = "*"
anyhow = "1"
log = "0.4"
crossbeam-channel = "0.5"
dirs = "*"
flexi_logger = "*"
image = { version = "0.25", default-features = false, features = ["png", "jpeg", "webp"] }
notify-debouncer-full = "*"
parking_lot = "0.12"
serde = { version = "1", features = ["derive"] }
toml = "*"
tauri-winrt-notification = "*"
trash = "*"
tray-icon = "*"
windows = { version = "*", features = ["Win32_Foundation", "Win32_UI_WindowsAndMessaging", "Win32_UI_Shell"] }
winreg = "*"
