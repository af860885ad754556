[package]
name = "mbox_extractor"
version = "0.1.0"
edition = "2021"
publish = false

[dependencies]
quoted_printable = "*"
html-escape = "*"
chrono = "*"
base64 = "*"
