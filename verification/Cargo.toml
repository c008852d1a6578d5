[package]
name = "rangepoll"
version = "0.1.0"
edition = "2021"
publish = false

[dependencies]
array2d = "=0.3.2"
chrono = "=0.4.45"
comrak = "=0.56.0"
jsonwebtoken = { version = "=11.1.0", features = ["rust_crypto"] }
serde_json = "=1.0.151"
serde = { version = "=1.0.229", features = ["derive"] }
serde_yaml = "=0.9.34"
glob = "=0.3.4"
clap = "=4.6.7"
