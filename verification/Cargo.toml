[package]
name = "sensor_sensei"
version = "0.1.0"
edition = "2021"
publish = false

[dependencies]
sha1 = "0.10"
anyhow = "1"
log = "0.4"
embedded-svc = "*"
esp-idf-svc = "*"
lora-phy = "*"
embassy-time = "*"
embedded-hal = "1"
embedded-hal-async = "1"
