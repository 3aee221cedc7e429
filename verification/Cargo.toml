[package]
name = "rjp"
version = "0.1.0"
edition = "2021"
publish = false

[dependencies]
clap = { version = "=4.6.7", features = ["derive"] }
itertools = "=0.15.0"
log = "=0.4.34"
serde_json = { version = "=1.0.154", features = ["preserve_order"] }
stderrlog = "=0.6.0"

[dev-dependencies]
serde = "=1.0.229"
