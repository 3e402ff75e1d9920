[package]
name = "react_analyzer"
version = "0.1.0"
edition = "2021"
publish = false

[dependencies]
clap = { version = "4", features = ["derive"] }
handlebars = "*"
ignore = "*"
lazy_static = "1"
regex = "1"
serde = { version = "1", features = ["derive"] }
serde_json = "1"
serde_jsonrc = "*"
threadpool = "1"
