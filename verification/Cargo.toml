[package]
name = "jetbrains_projects"
version = "0.1.0"
edition = "2021"
publish = false

[dependencies]
anyhow = "1"
dirs = "4"
fork = "0.1"
fuzzy-matcher = "=0.3.7"
serde = { version = "1", features = ["derive"] }
serde-xml-rs = "0.6"
tokio = { version = "1", features = ["macros", "rt"] }
