[package]
name = "ble_kdb_rs"
version = "0.1.0"
edition = "2021"
publish = false

[dependencies]
anyhow = "1"
esp-idf-svc = "*"
esp32-nimble = "*"
log = "0.4"
