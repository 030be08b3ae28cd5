[package]
name = "rustychat"
version = "0.1.0"
edition = "2021"
publish = false

[dependencies]
textwrap = "0.16"
unicode-width = "0.2"
ratatui = "0.29"
crossterm = "0.28"
tokio = { version = "1", features = ["full"] }
serde = { version = "1", features = ["derive"] }
toml = "0.8"
dirs-next = "2"
itertools = "0.13"
strum = "0.26"
strum_macros = "0.26"
