[package]
name = "po_check"
version = "0.1.0"
edition = "2021"
publish = false

[dependencies]
regex = "*"
clap = { version = "*", features = ["derive"] }
indicatif = "*"
tokio = { version = "*", features = ["macros", "rt-multi-thread"] }
