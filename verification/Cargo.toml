[package]
name = "nerdcli"
version = "0.1.0"
edition = "2021"
publish = false

[dependencies]
clap = { version = "=4.6.7", features = ["derive"] }
colored = "=3.1.1"
dialoguer = "=0.12.0"
directories = "=6.0.0"
fs_extra = "=1.3.0"
image = "=0.25.10"
rand = "=0.9.5"
serde = "=1.0.229"
serde_derive = "=1.0.229"
termion = "=4.0.6"
toml = "=1.1.7"
viuer = { version = "=0.11.0", features = ["print-file"] }
