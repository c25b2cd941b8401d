[package]
name = "curl_env"
version = "0.1.0"
edition = "2021"
publish = false

[dependencies]
anyhow = "1"
clap = { version = "4", features = ["derive"] }
indexmap = "2"
openapiv3 = "2"
serde_json = "1"
serde_yaml = "0.9"
url = "2"
xdg = "3"

[dev-dependencies]
regex = "1"
