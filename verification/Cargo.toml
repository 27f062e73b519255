[package]
name = "yx"
version = "0.1.0"
edition = "2021"
publish = false

[dependencies]
pathdiff = "0.2"
path-absolutize = "3"
serde = { version = "1", features = ["derive"] }
serde_json = "1"
walkdir = "2"
itertools = "0.10"
text_io = "0.1"
indoc = "1"
