[package]
name = "gl_replay"
version = "0.1.0"
edition = "2021"
publish = false

[dependencies]
gleam = "*"
image = { version = "*", default-features = false, features = ["png"] }
leb128 = "*"
docopt = "*"
serde = { version = "*", features = ["derive"] }
