[package]
name = "arc_identity"
version = "0.1.0"
edition = "2021"
publish = false

[dependencies]
async-trait = "0.1"
azure_core = { version = "0.27", default-features = false }
serde = { version = "1", features = ["derive"] }
