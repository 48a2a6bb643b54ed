[package]
name = "radial"
version = "0.1.0"
edition = "2021"
publish = false

[dependencies]
strsim = "*"
jiff = "*"
anyhow = "*"
clap = { version = "*", features = ["derive"] }
console = "*"
serde = { version = "*", features = ["derive"] }
serde_json = "*"
textwrap = "*"
fs2 = "*"
