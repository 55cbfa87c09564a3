[package]
name = "docx_rust"
version = "0.1.0"
edition = "2021"
publish = false

[dependencies]
hard-xml = "1"
xmlparser = "0.13"
