[package]
name = "raze_cli"
version = "0.1.0"
edition = "2021"
publish = false

[dependencies]
glob = "=0.3.4"
progress = "=0.2.0"
raze = "=0.2.0"
reqwest = { version = "=0.10.10", features = ["blocking"] }
scoped-pool = "=1.0.0"
serde = { version = "=1.0.229", features = ["derive"] }
serde_json = "=1.0.154"
text_io = "=0.1.13"
time = "=0.1.45"
