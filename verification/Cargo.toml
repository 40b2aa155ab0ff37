[package]
name = "cls"
version = "0.1.0"
edition = "2021"
publish = false

[dependencies]
uuid = { version = "*", features = ["v4"] }
chrono = "*"
dirs = "*"
serde_json = "*"
libc = "*"
once_cell = "*"
atty = "*"
dialoguer = "*"
ctrlc = "*"
colored = "*"
reqwest = { version = "*", default-features = false, features = ["blocking", "json"] }
