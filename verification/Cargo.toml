[package]
name = "mdpreview"
version = "0.1.0"
edition = "2021"
publish = false

[dependencies]
base64 = "=0.22.1"
clap = { version = "=4.6.7", features = ["derive"] }
comrak = { version = "=0.59.0", default-features = false }
crossterm = "=0.29.0"
image = { version = "=0.25.10", default-features = false, features = ["png"] }
mermaid-rs-renderer = { version = "=0.3.1", default-features = false }
notify = "=8.2.1"
resvg = "=0.49.0"
superlighttui = { version = "=0.16.1", features = ["image", "syntax"] }
