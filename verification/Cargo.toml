[package]
name = "lightbulb"
version = "0.1.0"
edition = "2021"
publish = false

[dependencies]
sha2 = "0.10"
base64 = "0.22"
x509-parser = "*"
anyhow = "1"
thiserror = "*"
serde = { version = "1", features = ["derive"] }
serde_json = "1"
regex = "1"
rand = "0.9"
tracing = "0.1"
time = "0.3"
rcgen = "*"
tokio = { version = "1", features = ["fs", "macros", "rt"] }
axum = "*"
ggml-quants = "*"
