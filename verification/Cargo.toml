[package]
name = "console_game_engine"
version = "0.1.0"
edition = "2021"
publish = false

[dependencies]
win32console = "0.1"
winapi = { version = "0.3", features = ["minwindef", "wincon", "wincontypes", "playsoundapi"] }
