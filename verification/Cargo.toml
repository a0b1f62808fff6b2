[package]
name = "aleo_core"
version = "0.1.0"
edition = "2021"
publish = false

[dependencies]
anyhow = "1"
base64 = "0.22"
clap = { version = "4", features = ["derive"] }
colored = "*"
indexmap = { version = "2", features = ["serde"] }
rand = "*"
rand_chacha = "*"
serde = { version = "1", features = ["derive"] }
serde_json = "1"
thiserror = "*"
