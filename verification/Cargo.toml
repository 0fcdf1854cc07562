[package]
name = "proxyjs"
version = "0.1.0"
edition = "2021"
publish = false

[dependencies]
chrono = "0.4"
clap = { version = "4", features = ["derive"] }
mlua = { version = "*", features = ["lua54", "vendored"] }
rquickjs = "*"
ureq = "2"
url = "2"
winreg = "*"
