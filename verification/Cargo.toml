[package]
name = "baize"
version = "0.1.0"
edition = "2021"
publish = false

[dependencies]
porter-stemmer = "=0.1.2"
jieba-rs = "=0.11.0"
rusqlite = { version = "=0.40.2", features = ["bundled", "loadable_extension"] }
