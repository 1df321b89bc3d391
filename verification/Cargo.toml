[package]
name = "rew"
version = "0.1.0"
edition = "2021"
publish = false

[dependencies]
regex = "*"
uuid = { version = "*", features = ["v4"] }
unidecode = "*"
termcolor = "*"

[dev-dependencies]
