[package]
name = "agent_models"
version = "0.1.0"
edition = "2021"
publish = false

[dependencies]
krabmaga = { version = "*", default-features = false }
hashbrown = "*"
