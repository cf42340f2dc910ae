[package]
name = "queenui"
version = "0.1.0"
edition = "2021"
publish = false

[dependencies]
sha2 = "0.10"
subtle = "2"
getrandom = "0.3"
base64 = "0.22"
rand = "0.9"
uuid = { version = "1", features = ["v4", "serde"] }
url = "2"
serde = { version = "1", features = ["derive"] }
serde_json = "1"
rusqlite = { version = "*", features = ["bundled"] }
fs2 = "0.4"
rcgen = "*"
