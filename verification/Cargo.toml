[package]
name = "versioned_backup"
version = "0.1.0"
edition = "2021"
publish = false

[dependencies]
chrono = "*"
clap = { version = "*", features = ["derive"] }
log = "*"
notify = "*"
notify-debouncer-full = "*"
papaya = "*"
simplelog = "*"
