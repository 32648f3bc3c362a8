[package]
name = "hook-dll-lib"
version = "0.1.0"
edition = "2021"
publish = false

[dependencies]
env_logger = "=0.11.11"
ipmb = "=0.8.5"
log = "=0.4.34"
min_hook_rs = "=2.2.1"
serde = { version = "=1.0.229", features = ["derive"] }
sysinfo = "*"
type-uuid = "=0.1.2"
windows-sys = { version = "=0.61.2", features = ["Win32_Foundation", "Win32_Networking_WinSock", "Win32_Security", "Win32_System_IO", "Win32_System_SystemServices", "Win32_System_Threading"] }
