[package]
name = "qquotes"
version = "0.1.0"
edition = "2021"
publish = false

[dependencies]
clap = "=4.6.7"
config = "=0.15.27"
log = "=0.4.34"
prettytable-rs = "=0.10.0"
serde = { version = "=1.0.229", features = ["derive"] }
serde_json = "=1.0.151"
shellexpand = "=3.1.2"
simplelog = "=0.12.2"
textwrap = { version = "=0.16.4", features = ["terminal_size"] }
uuid = { version = "=1.27.0", features = ["v4"] }
