[package]
name = "ccp"
version = "0.1.0"
edition = "2021"
publish = false

[dependencies]
chrono = "=0.4.45"
crossterm = "=0.28.1"
polodb_core = "=4.4.2"
ratatui = "=0.29.0"
serde = "=1.0.229"
serde_json = "=1.0.151"
tantivy = "=0.26.2"
toml = "=0.8.23"
