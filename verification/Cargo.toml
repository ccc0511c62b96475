[package]
name = "pac-windows"
version = "0.1.0"
edition = "2021"
publish = false

[dependencies]
anyhow = "=1.0.104"
chrono = "=0.4.45"
clap = { version = "=4.6.7", features = ["derive"] }
windows = { version = "=0.54.0", features = ["Win32_Devices_DeviceAndDriverInstallation", "Win32_Foundation", "Win32_Security", "Win32_Storage_FileSystem", "Win32_Storage_Jet", "Win32_Storage_StructuredStorage", "Win32_System_IO", "Win32_System_Power", "Win32_System_Registry"] }
