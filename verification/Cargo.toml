[package]
name = "mqtt_dmx"
version = "0.1.0"
edition = "2021"
publish = false

[dependencies]
serde = { version = "*", features = ["derive"] }
serde_json = "*"
tokio = { version = "*", features = ["full"] }
tokio-util = "*"
async-channel = "*"
rumqttc = "*"
bytes = "*"
chrono = "*"
rustop = "*"
log = "*"
