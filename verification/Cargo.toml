[package]
name = "cargo_check_updates"
version = "0.1.0"
edition = "2021"
publish = false

[dependencies]
toml_edit = "0.22"
semver = "1"
clap = { version = "4", features = ["derive"] }
colored = "2"
reqwest = { version = "0.12", features = ["json"] }
serde = { version = "1", features = ["derive"] }
thiserror = "1"
tokio = { version = "1", features = ["macros", "rt-multi-thread"] }
toml = "0.8"
