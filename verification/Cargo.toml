[package]
name = "fundoc"
version = "0.1.0"
edition = "2021"
publish = false

[dependencies]
ansi_term = "0.12"
clap = "4"
dialoguer = "0.11"
glob = "0.3"
mdbook = { version = "0.4", default-features = false }
regex = "1"
rlua = "0.19"
serde = { version = "1", features = ["derive"] }
serde_json = "1"
url = "2"
