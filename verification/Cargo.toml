[package]
name = "parallel_workflow"
version = "0.1.0"
edition = "2021"
publish = false

[dependencies]
anyhow = "1"
axum = "0.7"
base64 = "0.22"
chrono = "0.4"
fd-lock = "4"
rand = "0.8"
reqwest = { version = "0.12", default-features = false, features = ["blocking", "json"] }
rusqlite = { version = "0.31", features = ["bundled"] }
schemars = "0.8"
serde = { version = "1", features = ["derive"] }
serde_json = "1"
serde_yaml = "0.9"
tokio = { version = "1", features = ["rt-multi-thread", "net", "macros", "time"] }
toml_edit = "0.22"
uuid = { version = "1", features = ["v4"] }
walkdir = "2"
