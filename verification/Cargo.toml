[package]
name = "retag"
version = "0.1.0"
edition = "2021"
publish = false

[dependencies]
difflib = "0.4"
egui = "0.31"
getset = "0.1"
image = { version = "0.25", default-features = false, features = ["png"] }
itertools = "0.14"
leptess = "0.14"
opencv = "0.94"
serde = { version = "1", features = ["derive"] }
serde_json = "1"
