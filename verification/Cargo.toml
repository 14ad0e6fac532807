[package]
name = "mymediatrail"
version = "1.0.0"
edition = "2021"
publish = false

[dependencies]
blake3 = "1"
base64 = "0.22"
serde = { version = "1", features = ["derive"] }
serde_json = "1"
sqlx = { version = "0.8", default-features = false, features = ["runtime-tokio", "sqlite", "macros", "migrate"] }
tokio = { version = "1", features = ["full"] }
chrono = "0.4"
uuid = { version = "1", features = ["v4"] }
walkdir = "2"
trash = "5"
thiserror = "2"
