[package]
name = "desktop_entry_filter"
version = "0.1.0"
edition = "2021"
publish = false

[dependencies]
freedesktop_entry_parser = "*"
mediatype = "*"
atomic-write-file = "*"
clap = { version = "*", features = ["derive"] }
