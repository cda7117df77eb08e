[package]
name = "ime_lock"
version = "0.1.0"
edition = "2021"
publish = false

[dependencies]
log = "0.4"
windows = { version = "0.61", features = ["Win32_Foundation", "Win32_Globalization", "Win32_UI_Accessibility", "Win32_UI_Input_Ime", "Win32_UI_Input_KeyboardAndMouse", "Win32_UI_WindowsAndMessaging"] }
