[package]
name = "porkchop"
version = "0.1.0"
edition = "2021"
publish = false

[dependencies]
satkit = "*"
numeris = "*"
lambert_izzo = "*"
csv = "*"
serde = { version = "*", features = ["derive"] }
toml = "*"
