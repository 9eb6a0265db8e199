[package]
name = "csv_importer"
version = "0.1.0"
edition = "2021"
publish = false

[dependencies]
csv = "*"
notify = "*"
rumqttc = { version = "*", default-features = false }
serde = { version = "*", features = ["derive"] }
serde_json = "*"
