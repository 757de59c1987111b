[package]
name = "ngenrs"
version = "0.1.0"
edition = "2021"
publish = false

[dependencies]
libc = "0.2"
once_cell = "1"
tokio = { version = "1", features = ["rt-multi-thread"] }
redb = "2"
mlua = { version = "0.8", features = ["lua54", "vendored"] }
