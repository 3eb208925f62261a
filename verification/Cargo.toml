[package]
name = "calico"
version = "0.1.0"
edition = "2021"
publish = false

[dependencies]
crossterm = "*"
directories = "*"
indexmap = "*"
ratatui = "*"
rayon = "*"
serde = { version = "1", features = ["derive"] }
serde_json = "*"
toml = "*"
uuid = { version = "1", features = ["v4", "serde"] }
xml = "*"
zip = { version = "*", default-features = false, features = ["deflate"] }

[dev-dependencies]
tempfile = "*"
