[package]
name = "backup_system"
version = "0.1.0"
edition = "2021"
publish = false

[dependencies]
openssl = "0.10"
rayon = "1"
rocket = { version = "0.5", features = ["json"] }
serde = { version = "1", features = ["derive"] }
serde_json = "1"
tar = "0.4"
walkdir = "2"
zip = { version = "0.6", default-features = false, features = ["deflate"] }
