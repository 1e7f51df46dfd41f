[package]
name = "waybar_module_pomodoro"
version = "0.1.0"
edition = "2021"
publish = false

[dependencies]
clap = { version = "*", features = ["derive"] }
dirs = "*"
notify-rust = "*"
rodio = "*"
signal-hook = "*"
tracing = "*"
tracing-appender = "*"
tracing-journald = "*"
tracing-subscriber = { version = "*", features = ["env-filter"] }
xdg = "*"
