[package]
name = "rustmon"
version = "0.1.0"
edition = "2021"
publish = false

[dependencies]
nix = { version = "=0.30.1", features = ["fs", "ioctl", "net", "poll", "process", "signal", "socket", "term", "time", "user"] }
portable-pty = "=0.9.0"
windows = { version = "=0.61.3", features = ["Win32_Foundation", "Win32_System_Console"] }
