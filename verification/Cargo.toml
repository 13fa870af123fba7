[package]
name = "yk_fxo_disasm"
version = "0.1.0"
edition = "2021"
publish = false

[dependencies]
anyhow = "1"
clap = { version = "3.2", features = ["derive"] }
object = "0.30"
ring = "0.17"
rusqlite = { version = "0.29", features = ["bundled"] }

[dev-dependencies]
nom = "7"
