[package]
name = "keyboim"
version = "0.1.0"
edition = "2021"
publish = false

[dependencies]
indexmap = "2"
eframe = { version = "0.32", default-features = false, features = ["default_fonts", "glow", "x11"] }
egui = "0.32"
raw-window-handle = "0.6"
winit = { version = "0.30", default-features = false, features = ["rwh_06", "x11"] }
x11rb = { version = "0.13", features = ["xfixes"] }
cocoa = "0.26"
windows = { version = "0.58", features = ["Win32_Foundation", "Win32_Graphics_Gdi", "Win32_System_LibraryLoader", "Win32_UI_Input_KeyboardAndMouse", "Win32_UI_TextServices", "Win32_UI_WindowsAndMessaging"] }
