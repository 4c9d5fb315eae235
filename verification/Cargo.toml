[package]
name = "yadorilink_sync_sqlite"
version = "0.1.0"
edition = "2021"
publish = false

[dependencies]
hex = "0.4"
rand = "0.8"
rusqlite = "0.32"
serde_json = "1"
