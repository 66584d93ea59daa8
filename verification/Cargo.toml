[package]
name = "zellij_windows"
version = "0.1.0"
edition = "2021"
publish = false

[dependencies]
windows-sys = { version = "0.59", features = ["Win32_Foundation", "Win32_Security", "Win32_Storage_FileSystem", "Win32_System_Console", "Win32_System_IO", "Win32_System_JobObjects", "Win32_System_Pipes", "Win32_System_SystemInformation", "Win32_System_Threading"] }
crossterm = "0.28"
tokio = { version = "1", features = ["macros", "rt", "signal", "sync", "time"] }
anyhow = "1"
async-trait = "0.1"
log = "0.4"
interprocess = "2"
winapi = { version = "0.3", features = ["namedpipeapi"] }
