[package]
name = "vectorwar_core"
version = "0.1.0"
edition = "2021"
publish = false

[dependencies]
hecs = "*"
tokio = { version = "*", features = ["full"] }
async-channel = "*"
iroh = "*"
rkyv = "*"
rand = "*"
godot = "*"
