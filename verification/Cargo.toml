[package]
name = "launchbox"
version = "0.1.0"
edition = "2021"
publish = false

[dependencies]
procinfo = "0.4"
termion = "1.5"
toml = "0.5"
tui = { version = "0.16", default-features = false, features = ["termion"] }
