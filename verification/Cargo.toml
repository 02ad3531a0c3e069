[package]
name = "fastdivert"
version = "0.1.0"
edition = "2021"
publish = false

[dependencies]
anyhow = "=1.0.104"
ctrlc = "=3.5.2"
windows = { version = "0.58", features = ["Win32_Foundation", "Win32_Security", "Win32_Storage_FileSystem", "Win32_System_IO", "Win32_System_Services"] }
wdk = "*"
wdk-sys = "*"
