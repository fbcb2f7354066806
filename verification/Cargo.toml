[package]
name = "gatefold"
version = "0.1.0"
edition = "2021"
publish = false

[dependencies]
nucleo-matcher = "=0.3.1"
kakasi = "=0.1.0"
deunicode = "=1.6.2"
unicode-script = "=0.5.9"
quick-xml = "=0.37.5"
rand = "=0.9.5"
serde = { version = "=1.0.229", features = ["derive"] }
serde_json = "=1.0.154"
serde_yaml_ng = "=0.10.0"
dirs = "=6.0.0"
anyhow = "=1.0.104"
url = "2"
