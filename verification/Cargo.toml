[package]
name = "tagsyd"
version = "0.1.0"
edition = "2021"
publish = false

[dependencies]
base64 = "0.22"
blake3 = "1"
ed25519-dalek = "2"
futures-util = "0.3"
image = { version = "0.25", default-features = false, features = ["png", "jpeg", "gif", "webp", "bmp", "tiff"] }
log = "0.4"
pdfium-render = "0.8"
rand = "0.9"
regex = "1"
resvg = "0.45"
rmp-serde = "1"
rusqlite = { version = "0.37", features = ["bundled"] }
serde = { version = "1", features = ["derive"] }
serde_json = "1"
thiserror = "2"
tokio = { version = "1", features = ["full"] }
tokio-tungstenite = "0.27"
tokio-util = "0.7"
uuid = { version = "1", features = ["v4"] }
