[package]
name = "pihole_restore"
version = "0.1.0"
edition = "2021"
publish = false

[dependencies]
rusqlite = "*"
flate2 = "*"
tar = "*"
log = "0.4"
serde = { version = "1", features = ["derive"] }
serde_json = "1"
