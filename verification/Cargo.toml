[package]
name = "browseros_agent"
version = "0.1.0"
edition = "2021"
publish = false

[dependencies]
regex = "1"
serde = { version = "1", features = ["derive"] }
serde_json = "1"
serde_path_to_error = "*"
uuid = { version = "1", features = ["v4"] }
ulid = "*"
url = "2"
thiserror = "*"
tracing = "*"
tokio = { version = "1", features = ["full"] }
tokio-util = "*"
tokio-tungstenite = "*"
futures-util = "*"
socket2 = "*"
schemars = "1"
rmcp = "*"
axum = "*"
