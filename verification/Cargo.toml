[package]
name = "cargo_files_core"
version = "0.1.0"
edition = "2021"
publish = false

[dependencies]
syn = { version = "2", features = ["full"] }
clap = { version = "4", features = ["derive"] }
cargo_metadata = "0.19"
dunce = "1"
