[package]
name = "mm"
version = "0.1.0"
edition = "2021"
publish = false

[dependencies]
thiserror = "*"
windows-sys = { version = "*", features = ["Win32_Foundation", "Win32_System_Threading", "Win32_System_ProcessStatus"] }
