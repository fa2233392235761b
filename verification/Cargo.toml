[package]
name = "esp32_sensing"
version = "0.1.0"
edition = "2021"
publish = false

[dependencies]
byteorder = "1"
anyhow = "1"
log = "0.4"
esp-idf-svc = "0.51"
rumqttc = { version = "0.24", default-features = false }
