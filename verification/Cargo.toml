[package]
name = "hermes_usage"
version = "0.1.0"
edition = "2021"
publish = false

[dependencies]
chrono = "0.4"
libc = "0.2"
log = "0.4"
rusqlite = { version = "0.31", features = ["bundled"] }
rust_decimal = "1"
sha2 = "0.10"
windows-sys = { version = "0.59", features = ["Win32_Foundation", "Win32_Storage_FileSystem"] }
