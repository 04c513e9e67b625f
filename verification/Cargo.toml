[package]
name = "evering"
version = "0.1.0"
edition = "2021"
publish = false

[dependencies]
crossbeam-utils = "0.8"
nix = { version = "=0.30.1", features = ["event", "fs", "mman", "socket", "uio"] }
tokio = { version = "=1.54.1", features = ["net", "rt"] }
windows-sys = { version = "=0.60.2", features = [
    "Win32_Foundation",
    "Win32_Security",
    "Win32_Storage_FileSystem",
    "Win32_System_IO",
    "Win32_System_Memory",
    "Win32_System_Pipes",
    "Win32_System_Threading",
] }
