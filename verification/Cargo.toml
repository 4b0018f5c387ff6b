[package]
name = "reki"
version = "0.1.0"
edition = "2021"
publish = false

[dependencies]
anyhow = "=1.0.104"
crossterm = "=0.28.1"
git2 = { version = "=0.21.0", default-features = false }
ratatui = "=0.29.0"
time = { version = "=0.3.55", features = ["formatting", "local-offset", "macros"] }
unicode-segmentation = "=1.13.3"
unicode-truncate = "=3.0.0"
unicode-width = "=0.2.0"
