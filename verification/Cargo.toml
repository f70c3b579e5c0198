[package]
name = "storage_doctor"
version = "1.0.0"
edition = "2021"
publish = false

[dependencies]
serde = { version = "1", features = ["derive"] }
serde_json = "1"
sha2 = "0.10"
base64 = "0.22"
png = "0.17"
chrono = "0.4"
rayon = "1"
rusqlite = { version = "0.32", features = ["bundled"] }
sysinfo = { version = "0.33", default-features = false, features = ["disk", "system"] }
trash = "5"
dirs = "5"
winreg = "0.52"
