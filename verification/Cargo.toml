[package]
name = "pifile"
version = "0.1.0"
edition = "2021"
publish = false

[dependencies]
anyhow = "=1.0.104"
chrono = "=0.4.45"
directories = "=6.0.0"
trash = "=5.2.9"
notify = "=8.2.1"
rust-embed = { version = "=8.13.0", features = ["include-exclude"] }
