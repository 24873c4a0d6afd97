[package]
name = "zenoh"
version = "0.1.0"
edition = "2021"
publish = false

[dependencies]
serde = { version = "=1.0.229", features = ["derive"] }
serde_json = "=1.0.154"
validated_struct = { version = "=2.2.0", features = ["serde_json", "json5"] }
flume = "=0.10.14"
json5 = "=0.4.1"
serde_yaml = "=0.8.26"
uuid = { version = "=1.29.0", features = ["v4"] }
