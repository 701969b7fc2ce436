[package]
name = "media_bar"
version = "0.1.0"
edition = "2021"
publish = false

[dependencies.windows]
version = "0.58"
features = [
    "Foundation",
    "Foundation_Collections",
    "Media",
    "Media_Control",
    "Storage_Streams",
    "UI",
    "UI_ViewManagement",
    "Win32_Foundation",
    "Win32_Graphics_Gdi",
    "Win32_Graphics_Imaging",
    "Win32_Security",
    "Win32_System_Com",
    "Win32_System_Com_StructuredStorage",
    "Win32_System_LibraryLoader",
    "Win32_System_Registry",
    "Win32_UI_Controls",
    "Win32_UI_Input_KeyboardAndMouse",
    "Win32_UI_Shell",
    "Win32_UI_WindowsAndMessaging",
]
