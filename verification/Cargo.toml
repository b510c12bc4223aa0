[package]
name = "cornucopia"
version = "0.1.0"
edition = "2021"
publish = false

[dependencies]
heck = "0.4"
indexmap = "1.9"
postgres = "0.19"
postgres-types = "0.2"
thiserror = "1.0"
deadpool-postgres = "0.10"
clap = { version = "3.2", features = ["derive"] }
owo-colors = "3"
serde = { version = "1.0", features = ["derive"] }
tempfile = "3"
toml = "0.5"
