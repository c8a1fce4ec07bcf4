[package]
name = "prist"
version = "0.1.0"
edition = "2021"
publish = false

[dependencies]
anyhow = "*"
clap = { version = "*", features = ["derive"] }
config = "*"
git2 = { version = "*", default-features = false }
git-url-parse = "*"
log = "*"
pretty_env_logger = "*"
prettytable-rs = "*"
restson = "*"
serde = { version = "*", features = ["derive"] }
textwrap = "*"
toml = "*"
