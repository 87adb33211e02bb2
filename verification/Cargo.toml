[package]
name = "bson_bridge"
version = "0.1.0"
edition = "2021"
publish = false

[dependencies]
bson = "=2.15.0"
chrono = "=0.4.45"
base64 = "=0.22.1"
