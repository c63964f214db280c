[package]
name = "nebula_aura"
version = "1.0.0"
edition = "2021"
publish = false

[dependencies]
serde = { version = "1", features = ["derive"] }
serde_json = "1"
realfft = "3"
atomic_float = "1"
egui = "0.26"

[dev-dependencies]
rustfft = "6"
