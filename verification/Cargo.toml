[package]
name = "dvach"
version = "0.1.0"
edition = "2021"
publish = false

[dependencies]
colored = "*"
cursive = { version = "*", default-features = false, features = ["crossterm-backend"] }
env_logger = "*"
log = "0.4"
reqwest = { version = "0.12", features = ["blocking"] }
scraper = "*"
serde = { version = "1", features = ["derive"] }
serde_derive = "1"
serde_json = "1"
structopt = "0.3"
textwrap = "*"
