[package]
name = "lsrs"
version = "0.1.0"
edition = "2021"
publish = false

[dependencies]
chrono = { version = "0.4", default-features = false, features = ["clock", "std"] }
clap = "4"
colored = "2"
libc = "0.2"
mime_guess = "2"
users = "0.11"
