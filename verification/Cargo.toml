[package]
name = "ijk"
version = "0.1.0"
edition = "2021"
publish = false

[dependencies]
sequence_trie = "0.3"
serde = { version = "1", features = ["derive"] }
serde_derive = "1"
serde_json = "1"
toml = "0.5"
termion = "1"
clap = "2"
syntect = { version = "5", default-features = false, features = ["default-syntaxes", "default-themes", "regex-fancy", "parsing"] }
