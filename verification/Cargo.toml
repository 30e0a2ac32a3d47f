[package]
name = "bind_args"
version = "0.1.0"
edition = "2021"
publish = false

[dependencies]
itertools = "*"
thiserror = "*"
