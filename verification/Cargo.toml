[package]
name = "steno_lookup"
version = "0.1.0"
edition = "2021"
publish = false

[dependencies]
directories = "*"
rayon = "1"
rust-ini = "*"
serde = { version = "1", features = ["derive"] }
serde_json = "1"
structopt = "0.3"
tiny_http = "*"
url = "2"
