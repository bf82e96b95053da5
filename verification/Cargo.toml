[package]
name = "import-videos"
version = "0.1.0"
edition = "2021"
publish = false

[dependencies]
jiff = "0.2"
clap = { version = "4", features = ["derive"] }
serde = { version = "1", features = ["derive"] }
serde_json = "1"
serde_yaml_ng = "*"
globset = "0.4"
blake3 = "1"
directories = "*"
indicatif = "*"
thiserror = "2"
tracing = "0.1"
tracing-subscriber = "0.3"
