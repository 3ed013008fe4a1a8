[package]
name = "phyllotaxis"
version = "0.1.0"
edition = "2021"
publish = false

[dependencies]
anyhow = "1"
clap = { version = "4", features = ["derive"] }
clap_complete = "4"
dirs-next = "2"
human-panic = "2"
indexmap = "2"
openapiv3 = "2"
serde = { version = "1", features = ["derive"] }
serde_json = "1"
serde_yaml_ng = "*"
strsim = "0.11"
