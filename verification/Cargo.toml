[package]
name = "forge_alloc"
version = "0.1.0"
edition = "2021"
publish = false

[dependencies]
allocator-api2 = "=0.2.21"
libc = "=0.2.191"
siphasher = "=1.0.4"
subtle = "=2.6.1"
windows-sys = { version = "=0.61.2", features = ["Win32_Foundation", "Win32_System_Memory", "Win32_System_SystemInformation"] }
