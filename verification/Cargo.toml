[package]
name = "sha256_round_sound_spike"
version = "0.1.0"
edition = "2021"
publish = false

[dependencies]
stwo = "*"
stwo-constraint-framework = "*"
num-traits = "*"
itertools = "*"
serde = { version = "1", features = ["derive"] }
serde_json = "1"
