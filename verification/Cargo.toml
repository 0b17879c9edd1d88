[package]
name = "snapback"
version = "0.1.0"
edition = "2021"
publish = false

[dependencies]
anyhow = "1"
crossterm = "0.29"
notify = "8"
notify-debouncer-mini = "0.7"
ratatui = { version = "=0.30.2", features = ["unstable-rendered-line-info"] }
time = "0.3"
unicode-segmentation = "1"
