[package]
name = "bangumi007"
version = "0.1.0"
edition = "2021"
publish = false

[dependencies]
serde_json = "*"
html-escape = "*"
serde = { version = "*", features = ["derive"] }
reqwest = { version = "*", default-features = false, features = ["blocking"] }
retry = "*"
rusqlite = { version = "*", features = ["bundled"] }
toml = "*"
urlencoding = "*"
rand = "*"
chrono = "*"
log = "*"
