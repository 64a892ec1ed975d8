[package]
name = "sakura_repl"
version = "0.1.0"
edition = "2021"
publish = false

[dependencies]
sexp = "=1.1.4"
ascii_table = "=5.0.0"
ratatui = "=0.29.0"
arboard = { version = "=3.7.0", default-features = false }
clap = { version = "=4.6.7", features = ["derive"] }
color-eyre = "=0.6.5"
