[package]
name = "typst_lib"
version = "0.1.0"
edition = "2021"
publish = false

[dependencies]
base64 = "=0.21.7"
typst = "=0.11.1"
typst-pdf = "=0.11.1"
typst-svg = "=0.11.1"
typst-render = "=0.11.1"
comemo = "=0.4.0"
chrono = "0.4"

[dev-dependencies]
serde_json = "1"
