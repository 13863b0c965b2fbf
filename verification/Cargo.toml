[package]
name = "bloom"
version = "0.1.0"
edition = "2021"
publish = false

[dependencies]
getrandom = "0.2"
chrono = "0.4"
image = { version = "0.25", default-features = false, features = ["png"] }
serde = { version = "1", features = ["derive"] }
serde_json = "1"
thiserror = "2"
arboard = { version = "3", default-features = false }
windows = { version = "0.62", features = ["Win32_Foundation", "Win32_UI_Input_KeyboardAndMouse", "Win32_UI_WindowsAndMessaging", "Win32_System_Threading", "Win32_System_ProcessStatus"] }
