[package]
name = "wa2"
version = "0.1.0"
edition = "2021"
publish = false

[dependencies]
agdb = { version = "=0.16.0", features = ["derive"] }
clap = { version = "=4.6.7", features = ["derive"] }
is-terminal = "=0.4.17"
owo-colors = "=4.4.0"
serde_json = "=1.0.154"
terminal_size = "=0.4.4"
textwrap = "=0.16.4"
tokio = { version = "=1.54.1", features = ["io-std", "macros", "rt-multi-thread"] }
tower-lsp = "=0.20.0"
unicode-width = "=0.2.3"
url = "=2.5.8"
