[package]
name = "qoqo_operations"
version = "0.1.0"
edition = "2021"
publish = false

[dependencies]
qoqo_calculator = "*"
num-complex = "0.4"
serde = { version = "1", features = ["derive"] }
serde_json = "1"
syn = { version = "2", features = ["full"] }
quote = "1"
proc-macro2 = "1"
