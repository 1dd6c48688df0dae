[package]
name = "rogue_core"
version = "0.1.0"
edition = "2021"
publish = false

[dependencies]
rand = "=0.8.8"
bracket-terminal = { version = "*", default-features = false, features = ["cross_term"] }
