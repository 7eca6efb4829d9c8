[package]
name = "gc_core"
version = "0.1.0"
edition = "2021"
publish = false

[dependencies]
strsim = "0.11"
serde = { version = "1", features = ["derive"] }
serde_yaml = "0.9"
lofty = "0.22"
anyhow = "1"
clap = { version = "4", features = ["derive"] }
dirs = "5"
