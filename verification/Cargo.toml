[package]
name = "cleitonforge"
version = "0.1.0"
edition = "2021"
publish = false

[dependencies]
rand = "0.8"
num-complex = "0.4"
clap = { version = "4", features = ["derive"] }
comfy-table = "7"
serde = { version = "1", features = ["derive"] }
serde_json = "1"
qasm = "1"
oq3_semantics = "*"
roqoqo = "*"
qoqo_calculator = "*"
ndarray = "*"
quantrs2-core = "*"
q1tsim = "*"
