[package]
name = "websocket_server"
version = "0.1.0"
edition = "2021"
publish = false

[dependencies]
byteorder = "1"
sha1 = "0.6"
rustc-serialize = "0.3"
mio = "0.6"
http-muncher = "*"
