[package]
name = "nbt_codec"
version = "0.1.0"
edition = "2021"
publish = false

[dependencies]
serde = "1"
serde_json = "1"

[dev-dependencies]
hematite-nbt = "0.5"
