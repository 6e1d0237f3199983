[package]
name = "epub_translator"
version = "0.1.0"
edition = "2021"
publish = false

[dependencies]
actix-web = { version = "4", default-features = false, features = ["macros"] }
clap = { version = "4", features = ["derive"] }
futures = "0.3"
html5ever = "0.27"
indicatif = "0.17"
markup5ever_rcdom = "0.3"
rand = "0.8"
regex = "1"
reqwest = { version = "0.11", features = ["json"] }
serde = { version = "1", features = ["derive"] }
serde_json = "1"
tempfile = "3"
tokio = { version = "1", features = ["full"] }
walkdir = "2"
zip = { version = "0.6", default-features = false, features = ["deflate"] }
