[package]
name = "hotkey_manager"
version = "0.1.0"
edition = "2021"
publish = false

[dependencies]
tauri-hotkey = "*"
napi = { version = "1", features = ["napi4"] }
napi-derive = "1"
jemallocator = "*"
mimalloc = "*"
