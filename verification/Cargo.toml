[package]
name = "kra_stat"
version = "0.1.0"
edition = "2021"

[dependencies]
chrono = "0.4"
serde_json = "1"
handlebars = "*"
dirs = "*"
anyhow = "1"
thiserror = "1"
