[package]
name = "bashrs"
version = "0.1.0"
edition = "2021"
publish = false

[dependencies]
regex = "1"
console = "0.15"
serde_json = "1"
toml = "0.8"
clap = { version = "4", features = ["derive"] }
ignore = "0.4"
libc = "0.2"
syn = { version = "2", features = ["full"] }
quote = "1"
proc-macro2 = "1"
