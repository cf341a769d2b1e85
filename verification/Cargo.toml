[package]
name = "alwaysrunning"
version = "0.1.2"
edition = "2021"
publish = false

[dependencies]
anyhow = "1"
clap = "4"
crossterm = "0.28"
home = "0.5"
libc = "0.2"
serde = { version = "1", features = ["derive"] }
serde_json = "1"
windows-sys = { version = "0.52", features = ["Win32_Foundation", "Win32_System_Threading"] }
