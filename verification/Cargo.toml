[package]
name = "dojo_lang"
version = "0.1.0"
edition = "2021"
publish = false

[dependencies]
convert_case = "*"
serde = { version = "*", features = ["derive"] }
serde_json = "*"
starknet-core = "*"
toml = "*"
