[package]
name = "simadmin_ims"
version = "0.1.0"
edition = "2021"
publish = false

[dependencies]
anyhow = "1"
base64 = "0.22"
md5 = "0.7"
serde = { version = "1", features = ["derive"] }
serde_json = "1"
tokio = { version = "1", features = ["net", "process", "rt", "time"] }
tracing = "0.1"
zbus = { version = "5", default-features = false, features = ["tokio"] }
