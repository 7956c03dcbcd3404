[package]
name = "craftsql"
version = "0.1.0"
edition = "2021"
publish = false

[dependencies]
bincode = "1.3"
hex = "0.4"
serde = { version = "1", features = ["derive"] }
serde_json = "1"
sha2 = "0.10"
sqlite-vfs = "0.2"
tempfile = "3"
thiserror = "1"
uuid = { version = "1", features = ["v4"] }
