[package]
name = "memo_core"
version = "0.1.0"
edition = "2021"
publish = false

[dependencies]
jsonwebtoken = "9"
serde_json = "1"
bcrypt = "*"
chrono = "0.4"
base64 = "0.22"
rand = "0.8"
md-5 = "*"
infer = "*"
