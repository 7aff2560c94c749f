[package]
name = "mdquery"
version = "0.1.0"
edition = "2021"
publish = false

[dependencies]
anyhow = "1"
chrono = "0.4"
clap = { version = "4", features = ["derive"] }
comfy-table = "7"
csv = "1"
gray_matter = "0.2"
ignore = "0.4"
nucleo-matcher = "0.3"
rayon = "1"
serde = "1"
serde_json = "1"
serde_yml = "*"
sqlparser = "0.55"
