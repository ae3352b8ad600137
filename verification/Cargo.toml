[package]
name = "aurora_index"
version = "0.1.0"
edition = "2021"
publish = false

[dependencies]
chrono = "*"
plist = "*"
rusqlite = { version = "*", features = ["bundled"] }
notify = "*"
notify-debouncer-full = "*"
walkdir = "*"
xattr = "*"
