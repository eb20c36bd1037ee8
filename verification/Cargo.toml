[package]
name = "cirdean"
version = "0.1.0"
edition = "2021"
publish = false

[dependencies]
image = { version = "=0.25.10", default-features = false }
imageproc = { version = "=0.27.0", default-features = false }
serde_json = "1"
windows = { version = "0.54", features = ["Foundation", "Foundation_Collections", "Devices_Enumeration", "Media_Capture", "Media_Devices", "Media_Devices_Core", "Media_MediaProperties", "Storage_Streams", "Win32_Foundation", "Win32_Media_MediaFoundation", "Win32_Storage_Packaging_Appx", "Win32_System_Com", "Win32_System_RemoteDesktop", "Win32_System_WinRT", "Win32_UI_WindowsAndMessaging"] }
