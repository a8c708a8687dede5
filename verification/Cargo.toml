[package]
name = "nixe_boundary"
version = "0.1.0"
edition = "2021"
publish = false

[dependencies]
regalloc2 = "*"
serde = { version = "1", features = ["derive"] }
