[package]
name = "build_matrix"
version = "0.1.0"
edition = "2021"
publish = false

[dependencies]
quick-xml = "0.30"
serde = { version = "1", features = ["derive"] }
serde_json = "1"
serde_yaml = "0.9"
sysinfo = "0.32"
tokio = { version = "1", features = ["full"] }
chrono = "0.4"
