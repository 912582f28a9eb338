[package]
name = "enclave_model"
version = "0.1.0"
edition = "2021"
publish = false

[dependencies]
aes = "*"
cbc = "*"
rand = "*"
serde = { version = "*", features = ["derive"] }
serde_json = "*"
clap = { version = "*", features = ["derive"] }
anyhow = "*"
bytemuck = "*"
image = "*"
