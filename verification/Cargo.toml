[package]
name = "braid"
version = "0.1.0"
edition = "2021"
publish = false

[dependencies]
clap = { version = "4", features = ["derive", "env"] }
clap_complete = "4"
crossterm = "0.28"
fs2 = "0.4"
libc = "0.2"
rand = "0.9"
serde = { version = "1", features = ["derive"] }
serde_json = "1"
serde_yaml = "0.9"
thiserror = "2"
time = { version = "0.3", features = ["serde", "formatting", "parsing", "macros"] }
toml = "0.8"
uuid = { version = "1", features = ["v4"] }
