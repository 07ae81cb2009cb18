[package]
name = "basic_file_server"
version = "0.1.0"
edition = "2021"
publish = false

[dependencies]
md5 = "0.7"
mio = { version = "0.8", features = ["os-poll", "net"] }
